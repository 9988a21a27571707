//! Checking a market at run time.
//!
//! The operations of the market take a well formed market and leave one.
//! A market that was put together from stored parts has to be checked
//! before it is used: [`Market::is_well_formed`] decides exactly what
//! [`Market::wf`] states.

use crate::ledger::{
    has_key, lemma_staked_absent, lemma_staked_nonnegative, ordered_by_round, staked,
    unique_keys, BetLedger,
};
use crate::msg::Direction;
use crate::state::{
    lemma_pools_total_prefix, lemma_stakes_within_pool, pools_total, BetInfo, Market,
};
use vstd::prelude::*;

verus! {

/// The stakes of the first records are no more than the stakes of all.
pub proof fn lemma_staked_prefix(bets: Seq<BetInfo>, n: int, round_id: u128, direction: Direction)
    requires
        0 <= n <= bets.len(),
    ensures
        0 <= staked(bets.take(n), round_id, direction) <= staked(bets, round_id, direction),
    decreases bets.len() - n,
{
    lemma_staked_nonnegative(bets.take(n), round_id, direction);
    if n == bets.len() {
        assert(bets.take(n) =~= bets);
    } else {
        lemma_staked_prefix(bets, n + 1, round_id, direction);
        assert(bets.take(n + 1).drop_last() =~= bets.take(n));
    }
}

impl BetLedger {
    /// Decides whether the ledger is well formed.
    pub fn is_well_formed(&self) -> (ok: bool)
        ensures
            ok == self.wf(),
    {
        let bets = self.records();
        let n = bets.len();
        let mut j: usize = 0;
        while j < n
            invariant
                bets@ == self@,
                n == bets.len(),
                j <= n,
                unique_keys(self@.take(j as int)),
                ordered_by_round(self@.take(j as int)),
            decreases n - j,
        {
            let bet = &bets[j];
            if j > 0 && bets[j - 1].round_id > bet.round_id {
                assert(!ordered_by_round(self@)) by {
                    assert(self@[j - 1].round_id > self@[j as int].round_id);
                }
                return false;
            }
            let mut i: usize = 0;
            while i < j
                invariant
                    bets@ == self@,
                    n == bets.len(),
                    j < n,
                    i <= j,
                    bet == &bets[j as int],
                    forall|k: int|
                        0 <= k < i ==> !has_key(
                            #[trigger] self@[k],
                            self@[j as int].round_id,
                            self@[j as int].player@,
                        ),
                decreases j - i,
            {
                let other = &bets[i];
                if other.round_id == bet.round_id && other.player == bet.player {
                    assert(!unique_keys(self@)) by {
                        assert(has_key(self@[i as int], self@[j as int].round_id, self@[j as int].player@));
                    }
                    return false;
                }
                i += 1;
            }
            proof {
                let before = self@.take(j as int);
                let next = self@.take(j + 1);
                assert forall|a: int, b: int| 0 <= a < b < next.len() implies !has_key(
                    #[trigger] next[a],
                    (#[trigger] next[b]).round_id,
                    next[b].player@,
                ) by {
                    if b < j {
                        assert(before[a] == next[a] && before[b] == next[b]);
                    }
                }
                assert forall|a: int, b: int| 0 <= a <= b < next.len() implies (#[trigger] next[a]).round_id
                    <= (#[trigger] next[b]).round_id by {
                    if b < j {
                        assert(before[a] == next[a] && before[b] == next[b]);
                    } else if a < j {
                        assert(before[a] == next[a] && before[j - 1] == next[j - 1]);
                    }
                }
            }
            j += 1;
        }
        assert(self@.take(n as int) =~= self@);
        true
    }

    /// The sum of the stakes on `direction` in round `round_id`, or `None`
    /// where it does not fit in 128 bits.
    pub fn staked_on(&self, round_id: u128, direction: Direction) -> (sum: Option<u128>)
        ensures
            staked(self@, round_id, direction) <= u128::MAX ==> sum == Some(
                staked(self@, round_id, direction) as u128,
            ),
            staked(self@, round_id, direction) > u128::MAX ==> sum is None,
    {
        let bets = self.records();
        let mut sum: u128 = 0;
        let mut i: usize = 0;
        while i < bets.len()
            invariant
                bets@ == self@,
                i <= bets.len(),
                sum == staked(self@.take(i as int), round_id, direction),
            decreases bets.len() - i,
        {
            let bet = &bets[i];
            proof {
                assert(self@.take(i + 1).drop_last() =~= self@.take(i as int));
                lemma_staked_prefix(self@, i + 1, round_id, direction);
            }
            if bet.round_id == round_id && bet.direction == direction {
                sum = match sum.checked_add(bet.amount) {
                    Some(sum) => sum,
                    None => {
                        return None;
                    },
                };
            }
            i += 1;
        }
        proof {
            assert(self@.take(bets.len() as int) =~= self@);
        }
        Some(sum)
    }
}

impl Market {
    /// Decides whether the rounds are in their phases as
    /// [`crate::state::MarketView::rounds_wf`] states.
    pub fn rounds_in_phase(&self) -> (ok: bool)
        ensures
            ok == self@.rounds_wf(),
    {
        let finished = self.rounds.len();
        let mut i: usize = 0;
        while i < finished
            invariant
                finished == self.rounds.len(),
                i <= finished,
                forall|k: int| 0 <= k < i ==> (#[trigger] self.rounds@[k]).id == k,
            decreases finished - i,
        {
            if self.rounds[i].id != i as u128 {
                return false;
            }
            i += 1;
        }
        match (self.next_round, self.live_round) {
            (None, None) => self.next_round_id == 0 && finished == 0,
            (Some(bidding), None) => self.next_round_id == 1 && bidding.id == 0 && finished == 0,
            (Some(bidding), Some(live)) => {
                self.next_round_id == finished as u128 + 2 && bidding.id == finished as u128 + 1
                    && live.id == finished as u128 && bidding.open_time.nanos
                    == live.close_time.nanos
            },
            (None, Some(_)) => false,
        }
    }

    /// What the record of round `round_id` says was staked on
    /// `direction`.
    pub fn pool_of(&self, round_id: u128, direction: Direction) -> (amount: u128)
        ensures
            amount == self@.pool_of(round_id, direction),
    {
        if round_id < self.rounds.len() as u128 {
            let round = &self.rounds[round_id as usize];
            return match direction {
                Direction::Bull => round.bull_amount,
                Direction::Bear => round.bear_amount,
            };
        }
        match self.live_round {
            Some(live) => {
                if live.id == round_id {
                    return match direction {
                        Direction::Bull => live.bull_amount,
                        Direction::Bear => live.bear_amount,
                    };
                }
            },
            None => {},
        }
        match self.next_round {
            Some(bidding) => {
                if bidding.id == round_id {
                    return match direction {
                        Direction::Bull => bidding.bull_amount,
                        Direction::Bear => bidding.bear_amount,
                    };
                }
            },
            None => {},
        }
        0
    }

    /// Decides whether the stakes on `direction` in round `round_id` agree
    /// with the pool of that round.
    fn side_matches(&self, round_id: u128, direction: Direction) -> (ok: bool)
        ensures
            ok == if self@.settled(round_id) {
                staked(self@.bets, round_id, direction) <= self@.pool_of(round_id, direction)
            } else {
                staked(self@.bets, round_id, direction) == self@.pool_of(round_id, direction)
            },
    {
        let recorded = self.pool_of(round_id, direction);
        proof {
            lemma_staked_nonnegative(self@.bets, round_id, direction);
        }
        match self.bets.staked_on(round_id, direction) {
            Some(sum) => if round_id < self.rounds.len() as u128 {
                sum <= recorded
            } else {
                sum == recorded
            },
            None => false,
        }
    }

    /// Decides whether the bets agree with the pools as
    /// [`crate::state::MarketView::bets_wf`] states.
    pub fn bets_match_pools(&self) -> (ok: bool)
        requires
            self@.rounds_wf(),
        ensures
            ok == self@.bets_wf(),
    {
        let bets = self.bets.records();
        let mut i: usize = 0;
        while i < bets.len()
            invariant
                bets@ == self@.bets,
                i <= bets.len(),
                forall|k: int| 0 <= k < i ==> (#[trigger] self@.bets[k]).round_id < self.next_round_id,
            decreases bets.len() - i,
        {
            if bets[i].round_id >= self.next_round_id {
                assert(!(self@.bets[i as int].round_id < self.next_round_id));
                return false;
            }
            i += 1;
        }
        let mut round_id: u128 = 0;
        while round_id < self.next_round_id
            invariant
                round_id <= self.next_round_id,
                forall|r: u128, d: Direction|
                    #![trigger staked(self@.bets, r, d)]
                    #![trigger self@.pool_of(r, d)]
                    r < round_id ==> if self@.settled(r) {
                        staked(self@.bets, r, d) <= self@.pool_of(r, d)
                    } else {
                        staked(self@.bets, r, d) == self@.pool_of(r, d)
                    },
            decreases self.next_round_id - round_id,
        {
            if !self.side_matches(round_id, Direction::Bull) {
                proof {
                    if self@.bets_wf() {
                        lemma_stakes_within_pool(self@, round_id, Direction::Bull);
                    }
                }
                return false;
            }
            if !self.side_matches(round_id, Direction::Bear) {
                proof {
                    if self@.bets_wf() {
                        lemma_stakes_within_pool(self@, round_id, Direction::Bear);
                    }
                }
                return false;
            }
            round_id += 1;
        }
        proof {
            assert forall|r: u128, d: Direction|
                #![trigger staked(self@.bets, r, d)]
                #![trigger self@.pool_of(r, d)]
                if self@.settled(r) {
                    staked(self@.bets, r, d) <= self@.pool_of(r, d)
                } else {
                    staked(self@.bets, r, d) == self@.pool_of(r, d)
                } by {
                if r >= self.next_round_id {
                    assert forall|k: int| 0 <= k < self@.bets.len() implies (#[trigger] self@.bets[k]).round_id
                        != r by {}
                    lemma_staked_absent(self@.bets, r, d);
                }
            }
        }
        true
    }

    /// Decides whether the total volume is the sum of all pools.
    pub fn volume_matches_pools(&self) -> (ok: bool)
        ensures
            ok == self@.volume_wf(),
    {
        let mut sum: u128 = 0;
        let mut i: usize = 0;
        while i < self.rounds.len()
            invariant
                i <= self.rounds.len(),
                sum == pools_total(self.rounds@.take(i as int)),
            decreases self.rounds.len() - i,
        {
            let round = &self.rounds[i];
            proof {
                assert(self.rounds@.take(i + 1).drop_last() =~= self.rounds@.take(i as int));
                lemma_pools_total_prefix(self.rounds@, i + 1);
            }
            sum = match sum.checked_add(round.bull_amount) {
                Some(sum) => sum,
                None => {
                    return false;
                },
            };
            sum = match sum.checked_add(round.bear_amount) {
                Some(sum) => sum,
                None => {
                    return false;
                },
            };
            i += 1;
        }
        proof {
            assert(self.rounds@.take(self.rounds.len() as int) =~= self.rounds@);
        }
        match self.live_round {
            Some(live) => {
                sum = match sum.checked_add(live.bull_amount) {
                    Some(sum) => sum,
                    None => {
                        return false;
                    },
                };
                sum = match sum.checked_add(live.bear_amount) {
                    Some(sum) => sum,
                    None => {
                        return false;
                    },
                };
            },
            None => {},
        }
        match self.next_round {
            Some(bidding) => {
                sum = match sum.checked_add(bidding.bull_amount) {
                    Some(sum) => sum,
                    None => {
                        return false;
                    },
                };
                sum = match sum.checked_add(bidding.bear_amount) {
                    Some(sum) => sum,
                    None => {
                        return false;
                    },
                };
            },
            None => {},
        }
        sum == self.total_volume
    }

    /// Decides whether the market is well formed.
    pub fn is_well_formed(&self) -> (ok: bool)
        ensures
            ok == self.wf(),
    {
        self.rounds_in_phase() && self.bets.is_well_formed() && self.bets_match_pools()
            && self.volume_matches_pools()
    }
}

} // verus!
