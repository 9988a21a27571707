//! What a bet in a finished round is worth.
//!
//! A round with an empty side, or one whose price did not move, returns
//! every stake. Otherwise the whole pool is shared among the winning side
//! in proportion to the stakes; what the rounding leaves over stays in the
//! pool.

use crate::error::ContractError;
use crate::ledger::{
    lemma_filter_keeps_order, lemma_filter_member, lemma_select_ascending, lemma_staked_covers,
    lemma_staked_without_settled, range_of, select, staked, unsettled, without_settled, Order,
};
use crate::msg::{Direction, FinishedRound, LiveRound};
use crate::ratio::multiply_ratio;
use crate::scheduler::closed_round;
use crate::state::{
    lemma_pools_total_covers, lemma_pools_total_prefix, lemma_stakes_within_pool, pools_total,
    BetInfo, Market, MarketView,
};
use vstd::prelude::*;

verus! {

/// What was staked on `direction` in `round`.
pub open spec fn side_amount(round: FinishedRound, direction: Direction) -> u128 {
    match direction {
        Direction::Bull => round.bull_amount,
        Direction::Bear => round.bear_amount,
    }
}

/// Everything staked in `round`, on both sides.
pub open spec fn pool(round: FinishedRound) -> int {
    round.bull_amount + round.bear_amount
}

/// Both sides of `round` hold a stake.
pub open spec fn two_sided(round: FinishedRound) -> bool {
    round.bull_amount != 0 && round.bear_amount != 0
}

/// A stake on `direction` shares in the pool of `round`.
pub open spec fn wins(round: FinishedRound, direction: Direction) -> bool {
    two_sided(round) && round.winner == Some(direction)
}

/// What a stake of `amount` on `direction` is worth once `round` has
/// finished.
pub open spec fn payout(round: FinishedRound, amount: u128, direction: Direction) -> int {
    if !two_sided(round) {
        amount as int
    } else if round.winner == Some(direction) {
        amount * pool(round) / (side_amount(round, direction) as int)
    } else if round.winner is None {
        amount as int
    } else {
        0
    }
}

/// The payout can be computed in 128 bits: where the stake shares in the
/// pool, the pool and the share both fit.
pub open spec fn payout_fits(round: FinishedRound, amount: u128, direction: Direction) -> bool {
    wins(round, direction) ==> pool(round) <= u128::MAX && payout(round, amount, direction)
        <= u128::MAX
}

/// The sum of the stakes of `bets`.
pub open spec fn stakes_total(bets: Seq<BetInfo>) -> int
    decreases bets.len(),
{
    if bets.len() == 0 {
        0
    } else {
        stakes_total(bets.drop_last()) + bets.last().amount
    }
}

/// The sum of what `bets` are worth in `round`.
pub open spec fn payouts_total(round: FinishedRound, bets: Seq<BetInfo>) -> int
    decreases bets.len(),
{
    if bets.len() == 0 {
        0
    } else {
        payouts_total(round, bets.drop_last()) + payout(
            round,
            bets.last().amount,
            bets.last().direction,
        )
    }
}

/// What `bet` is worth in `round`. The payout must fit in 128 bits, as
/// it does for every bet that a well formed market holds (see
/// [`lemma_bet_fits`]).
pub fn payout_for(round: &FinishedRound, bet: &BetInfo) -> (amount: u128)
    requires
        payout_fits(*round, bet.amount, bet.direction),
    ensures
        amount == payout(*round, bet.amount, bet.direction),
{
    if round.bear_amount == 0 || round.bull_amount == 0 {
        return bet.amount;
    }
    match round.winner {
        Some(Direction::Bull) => match bet.direction {
            Direction::Bull => {
                let pool_shares = round.bear_amount + round.bull_amount;
                let won_shares = bet.amount;
                assert(pool_shares * won_shares == won_shares * pool_shares) by (nonlinear_arith);
                multiply_ratio(pool_shares, won_shares, round.bull_amount)
            },
            Direction::Bear => 0,
        },
        Some(Direction::Bear) => match bet.direction {
            Direction::Bull => 0,
            Direction::Bear => {
                let pool_shares = round.bear_amount + round.bull_amount;
                let won_shares = bet.amount;
                assert(pool_shares * won_shares == won_shares * pool_shares) by (nonlinear_arith);
                multiply_ratio(pool_shares, won_shares, round.bear_amount)
            },
        },
        None => bet.amount,
    }
}

/// A winning stake no larger than its side never gets more than the pool.
pub proof fn lemma_payout_bounded(round: FinishedRound, amount: u128, direction: Direction)
    requires
        amount <= side_amount(round, direction),
    ensures
        0 <= payout(round, amount, direction) <= pool(round),
{
    if wins(round, direction) {
        let p = pool(round);
        let w = side_amount(round, direction) as int;
        let a = amount as int;
        assert(0 <= a * p / w <= p) by (nonlinear_arith)
            requires
                0 <= a <= w,
                0 < w,
                0 <= p,
        {
            assert(a * p <= w * p);
            assert(w * p / w == p);
        }
    }
}

/// What the rounding has kept back from the first bets of a winning side:
/// between nothing and, for each bet, one unit less than the side's stake.
proof fn lemma_rounding_loss(round: FinishedRound, winner: Direction, bets: Seq<BetInfo>)
    requires
        wins(round, winner),
        forall|i: int| 0 <= i < bets.len() ==> (#[trigger] bets[i]).direction == winner,
    ensures
        0 <= pool(round) * stakes_total(bets) - side_amount(round, winner) * payouts_total(
            round,
            bets,
        ) <= bets.len() * (side_amount(round, winner) - 1),
        0 <= stakes_total(bets),
        0 <= payouts_total(round, bets),
    decreases bets.len(),
{
    let p = pool(round);
    let w = side_amount(round, winner) as int;
    if bets.len() == 0 {
        assert(p * 0 - w * 0 == 0) by (nonlinear_arith);
        assert(0 * (w - 1) == 0) by (nonlinear_arith);
    } else {
        let rest = bets.drop_last();
        let a = bets.last().amount as int;
        lemma_rounding_loss(round, winner, rest);
        let s = stakes_total(rest);
        let t = payouts_total(round, rest);
        let q = a * p / w;
        let n = rest.len() as int;
        assert(payout(round, bets.last().amount, bets.last().direction) == q);
        assert(0 <= p * (s + a) - w * (t + q) <= (n + 1) * (w - 1) && 0 <= q) by (nonlinear_arith)
            requires
                0 <= p * s - w * t <= n * (w - 1),
                q == a * p / w,
                0 < w,
                0 <= a,
                0 <= p,
                0 <= n,
        {
            assert(a * p == w * (a * p / w) + (a * p) % w);
            assert(0 <= (a * p) % w < w);
            assert(p * (s + a) == p * s + a * p);
            assert(w * (t + q) == w * t + w * q);
            assert((n + 1) * (w - 1) == n * (w - 1) + (w - 1));
        }
    }
}

/// Pool conservation. Where both sides of a round hold a stake and one of
/// them has won, paying every bet of the winning side hands out the whole
/// pool and no more, short of what the rounding keeps back: less than one
/// unit for each winning bet.
pub proof fn lemma_pool_conservation(round: FinishedRound, winner: Direction, bets: Seq<BetInfo>)
    requires
        wins(round, winner),
        forall|i: int| 0 <= i < bets.len() ==> (#[trigger] bets[i]).direction == winner,
        stakes_total(bets) == side_amount(round, winner),
    ensures
        payouts_total(round, bets) <= pool(round),
        pool(round) - payouts_total(round, bets) < bets.len(),
{
    lemma_rounding_loss(round, winner, bets);
    let p = pool(round);
    let w = side_amount(round, winner) as int;
    let t = payouts_total(round, bets);
    let n = bets.len() as int;
    if n == 0 {
        assert(stakes_total(bets) == 0);
    }
    assert(t <= p && p - t < n) by (nonlinear_arith)
        requires
            0 <= p * w - w * t <= n * (w - 1),
            0 < w,
            0 < n,
    {
        assert(p * w - w * t == w * (p - t));
        if p - t < 0 {
            assert(w * (p - t) < 0);
        }
        if p - t >= n {
            assert(w * (p - t) >= w * n);
            assert(w * n == n * w);
            assert(n * (w - 1) == n * w - n);
        }
    }
}

/// What `bet` is worth now: its payout where its round has finished,
/// nothing yet where it has not.
pub open spec fn worth(rounds: Seq<FinishedRound>, bet: BetInfo) -> int {
    if bet.round_id < rounds.len() {
        payout(rounds[bet.round_id as int], bet.amount, bet.direction)
    } else {
        0
    }
}

/// The sum of what `games` are worth now.
pub open spec fn winnings(rounds: Seq<FinishedRound>, games: Seq<BetInfo>) -> int
    decreases games.len(),
{
    if games.len() == 0 {
        0
    } else {
        winnings(rounds, games.drop_last()) + worth(rounds, games.last())
    }
}

impl MarketView {
    /// All bets of `player` in the ledger, oldest round first.
    pub open spec fn games_of(self, player: Seq<char>) -> Seq<BetInfo> {
        select(self.bets, player, None, None)
    }

    /// What `player` can collect: the sum of the payouts of their bets in
    /// finished rounds.
    pub open spec fn pending_reward(self, player: Seq<char>) -> int {
        winnings(self.rounds, self.games_of(player))
    }

    /// The market after `player` has collected: their bets in finished
    /// rounds have left the ledger.
    pub open spec fn collected(self, player: Seq<char>) -> MarketView {
        MarketView { bets: without_settled(self.bets, player, self.finished()), ..self }
    }

    /// What collecting does for `player`: the market after it and the
    /// amount to pay, or why nothing is paid.
    pub open spec fn collect_result(self, player: Seq<char>) -> Result<
        (MarketView, u128),
        ContractError,
    > {
        if self.pending_reward(player) == 0 {
            Err(ContractError::NothingToClaim)
        } else {
            Ok((self.collected(player), self.pending_reward(player) as u128))
        }
    }
}

impl Market {
    /// What `player` can collect: the sum of the payouts of their bets in
    /// finished rounds.
    pub fn pending_reward(&self, player: &String) -> (amount: u128)
        requires
            self.wf(),
        ensures
            amount == self@.pending_reward(player@),
    {
        let games = self.bets.player_range(player, None, None, Order::Ascending);
        let mut winnings: u128 = 0;
        let mut i: usize = 0;
        proof {
            lemma_pending_reward_fits(self@, player@);
        }
        while i < games.len()
            invariant
                self.wf(),
                games@ == self@.games_of(player@),
                i <= games.len(),
                winnings == self::winnings(self.rounds@, games@.take(i as int)),
                self::winnings(self.rounds@, games@) <= u128::MAX,
            decreases games.len() - i,
        {
            let game = &games[i];
            proof {
                assert(games@.take(i + 1).drop_last() =~= games@.take(i as int));
                lemma_winnings_prefix(self.rounds@, games@, i + 1);
                lemma_game_fits(self@, player@, i as int);
            }
            if game.round_id < self.rounds.len() as u128 {
                let round = &self.rounds[game.round_id as usize];
                let round_winnings = payout_for(round, game);
                winnings = winnings + round_winnings;
            }
            i += 1;
        }
        assert(games@.take(games.len() as int) =~= games@);
        winnings
    }

    /// Pays `player` what their bets in finished rounds are worth and takes
    /// those bets out of the ledger, so that none is paid twice. Returns
    /// the amount to pay. Where that is nothing, or cannot be held in 128
    /// bits, the call is refused and changes nothing.
    pub fn collect(&mut self, player: &String) -> (r: Result<u128, ContractError>)
        requires
            old(self).wf(),
        ensures
            final(self).wf(),
            match old(self)@.collect_result(player@) {
                Ok((market, amount)) => final(self)@ == market && r == Ok::<u128, ContractError>(
                    amount,
                ),
                Err(e) => final(self)@ == old(self)@ && r == Err::<u128, ContractError>(e),
            },
    {
        let winnings = self.pending_reward(player);
        proof {
            lemma_winnings_nonnegative(self.rounds@, self@.games_of(player@));
            lemma_collect_keeps_wf(old(self)@, player@);
        }
        if winnings == 0 {
            return Err(ContractError::NothingToClaim);
        }
        self.bets.remove_settled(player, self.rounds.len());
        assert(self@ == old(self)@.collected(player@));
        Ok(winnings)
    }
}

/// No payout is negative.
pub proof fn lemma_payout_nonnegative(round: FinishedRound, amount: u128, direction: Direction)
    ensures
        0 <= payout(round, amount, direction),
{
    if wins(round, direction) {
        let p = pool(round);
        let w = side_amount(round, direction) as int;
        let a = amount as int;
        assert(0 <= a * p / w) by (nonlinear_arith)
            requires
                0 <= a,
                0 < w,
                0 <= p,
        ;
    }
}

/// The first bets of a list are worth no more than the whole list.
pub proof fn lemma_winnings_prefix(rounds: Seq<FinishedRound>, games: Seq<BetInfo>, n: int)
    requires
        0 <= n <= games.len(),
    ensures
        0 <= winnings(rounds, games.take(n)) <= winnings(rounds, games),
    decreases games.len() - n,
{
    if n == games.len() {
        assert(games.take(n) =~= games);
        lemma_winnings_nonnegative(rounds, games);
    } else {
        lemma_winnings_prefix(rounds, games, n + 1);
        assert(games.take(n + 1).drop_last() =~= games.take(n));
        let bet = games.take(n + 1).last();
        if bet.round_id < rounds.len() {
            lemma_payout_nonnegative(rounds[bet.round_id as int], bet.amount, bet.direction);
        }
        lemma_winnings_nonnegative(rounds, games.take(n));
    }
}

/// A list of bets is never worth less than nothing.
pub proof fn lemma_winnings_nonnegative(rounds: Seq<FinishedRound>, games: Seq<BetInfo>)
    ensures
        0 <= winnings(rounds, games),
    decreases games.len(),
{
    if games.len() > 0 {
        lemma_winnings_nonnegative(rounds, games.drop_last());
        let bet = games.last();
        if bet.round_id < rounds.len() {
            lemma_payout_nonnegative(rounds[bet.round_id as int], bet.amount, bet.direction);
        }
    }
}

/// Bets in rounds that have not finished are worth nothing yet.
pub proof fn lemma_winnings_unsettled(rounds: Seq<FinishedRound>, games: Seq<BetInfo>)
    requires
        forall|k: int| 0 <= k < games.len() ==> (#[trigger] games[k]).round_id >= rounds.len(),
    ensures
        winnings(rounds, games) == 0,
    decreases games.len(),
{
    if games.len() > 0 {
        let rest = games.drop_last();
        assert forall|k: int| 0 <= k < rest.len() implies (#[trigger] rest[k]).round_id
            >= rounds.len() by {
            assert(rest[k] == games[k]);
        }
        lemma_winnings_unsettled(rounds, rest);
        assert(games.last() == games[games.len() - 1]);
    }
}

/// In a well formed market the payout of every recorded bet in a finished
/// round can be computed, and is no more than the pool of its round.
pub proof fn lemma_bet_fits(market: MarketView, i: int)
    requires
        market.wf(),
        0 <= i < market.bets.len(),
        market.bets[i].round_id < market.rounds.len(),
    ensures
        payout_fits(
            market.rounds[market.bets[i].round_id as int],
            market.bets[i].amount,
            market.bets[i].direction,
        ),
        0 <= worth(market.rounds, market.bets[i]) <= pool(
            market.rounds[market.bets[i].round_id as int],
        ) <= market.total_volume,
{
    let bet = market.bets[i];
    let round = market.rounds[bet.round_id as int];
    lemma_staked_covers(market.bets, i);
    lemma_stakes_within_pool(market, bet.round_id, bet.direction);
    lemma_payout_bounded(round, bet.amount, bet.direction);
    lemma_pools_total_covers(market.rounds, bet.round_id as int);
}

/// The same for the bets of one player, as they are listed.
pub proof fn lemma_game_fits(market: MarketView, player: Seq<char>, k: int)
    requires
        market.wf(),
        0 <= k < market.games_of(player).len(),
    ensures
        market.games_of(player)[k].player@ == player,
        market.games_of(player)[k].round_id < market.rounds.len() ==> payout_fits(
            market.rounds[market.games_of(player)[k].round_id as int],
            market.games_of(player)[k].amount,
            market.games_of(player)[k].direction,
        ) && 0 <= worth(market.rounds, market.games_of(player)[k]) <= pool(
            market.rounds[market.games_of(player)[k].round_id as int],
        ),
{
    let game = market.games_of(player)[k];
    lemma_filter_member(market.bets, range_of(player, None, None), k);
    let i = choose|i: int| 0 <= i < market.bets.len() && #[trigger] market.bets[i] == game;
    if game.round_id < market.rounds.len() {
        lemma_bet_fits(market, i);
    }
}

/// How many of the finished rounds a list of bets in ascending rounds
/// reaches into: all up to the round of its last bet.
pub open spec fn reach(rounds: Seq<FinishedRound>, games: Seq<BetInfo>) -> int {
    if games.len() == 0 {
        0
    } else if games.last().round_id < rounds.len() {
        games.last().round_id + 1
    } else {
        rounds.len() as int
    }
}

/// Bets in different rounds, each worth no more than the pool of its
/// round, are together worth no more than the pools of the rounds they
/// reach into.
pub proof fn lemma_winnings_within_pools(rounds: Seq<FinishedRound>, games: Seq<BetInfo>)
    requires
        forall|i: int, j: int|
            0 <= i < j < games.len() ==> (#[trigger] games[i]).round_id
                < (#[trigger] games[j]).round_id,
        forall|k: int|
            0 <= k < games.len() && (#[trigger] games[k]).round_id < rounds.len() ==> worth(
                rounds,
                games[k],
            ) <= pool(rounds[games[k].round_id as int]),
    ensures
        winnings(rounds, games) <= pools_total(rounds.take(reach(rounds, games))),
    decreases games.len(),
{
    if games.len() == 0 {
        assert(rounds.take(0) =~= Seq::<FinishedRound>::empty());
    } else {
        let rest = games.drop_last();
        let last = games.last();
        assert(last == games[games.len() - 1]);
        assert forall|i: int, j: int| 0 <= i < j < rest.len() implies (#[trigger] rest[i]).round_id
            < (#[trigger] rest[j]).round_id by {
            assert(rest[i] == games[i] && rest[j] == games[j]);
        }
        assert forall|k: int|
            0 <= k < rest.len() && (#[trigger] rest[k]).round_id < rounds.len() implies worth(
            rounds,
            rest[k],
        ) <= pool(rounds[rest[k].round_id as int]) by {
            assert(rest[k] == games[k]);
        }
        lemma_winnings_within_pools(rounds, rest);
        let before = reach(rounds, rest);
        let upto = if last.round_id < rounds.len() {
            last.round_id as int
        } else {
            rounds.len() as int
        };
        if rest.len() > 0 {
            assert(rest.last() == games[games.len() - 2]);
        }
        assert(before <= upto);
        lemma_pools_total_prefix(rounds.take(upto), before);
        assert(rounds.take(upto).take(before) =~= rounds.take(before));
        if last.round_id < rounds.len() {
            assert(rounds.take(upto + 1).drop_last() =~= rounds.take(upto));
            assert(rounds.take(upto + 1).last() == rounds[upto]);
        }
    }
}

/// What a player can collect from a well formed market is no more than
/// the total volume, and so fits in 128 bits.
pub proof fn lemma_pending_reward_fits(market: MarketView, player: Seq<char>)
    requires
        market.wf(),
    ensures
        0 <= market.pending_reward(player) <= market.total_volume,
{
    let games = market.games_of(player);
    lemma_select_ascending(market.bets, player, None, None);
    assert forall|k: int|
        0 <= k < games.len() && (#[trigger] games[k]).round_id < market.rounds.len() implies worth(
        market.rounds,
        games[k],
    ) <= pool(market.rounds[games[k].round_id as int]) by {
        lemma_game_fits(market, player, k);
    }
    lemma_winnings_within_pools(market.rounds, games);
    lemma_pools_total_prefix(market.rounds, reach(market.rounds, games));
    lemma_winnings_nonnegative(market.rounds, games);
}

/// Collecting keeps the market well formed.
pub proof fn lemma_collect_keeps_wf(market: MarketView, player: Seq<char>)
    requires
        market.wf(),
    ensures
        market.collected(player).wf(),
{
    let after = market.collected(player);
    let keep = unsettled(player, market.finished());
    lemma_filter_keeps_order(market.bets, keep);
    assert forall|i: int| 0 <= i < after.bets.len() implies (#[trigger] after.bets[i]).round_id
        < after.next_round_id by {
        lemma_filter_member(market.bets, keep, i);
        let k = choose|k: int| 0 <= k < market.bets.len() && #[trigger] market.bets[k] == after.bets[i];
    }
    assert forall|r: u128, d: Direction|
        #![trigger staked(after.bets, r, d)]
        #![trigger after.pool_of(r, d)]
        if after.settled(r) {
            staked(after.bets, r, d) <= after.pool_of(r, d)
        } else {
            staked(after.bets, r, d) == after.pool_of(r, d)
        } by {
        lemma_staked_without_settled(market.bets, player, market.finished(), r, d);
        lemma_stakes_within_pool(market, r, d);
    }
}

/// A push refunds everybody. A round that closes at the price at which it
/// opened has no winner, and every bet in it is worth its stake, whatever
/// the pools are.
pub proof fn lemma_push_refunds(live: LiveRound, amount: u128, direction: Direction)
    ensures
        closed_round(live, live.open_price).winner is None,
        payout(closed_round(live, live.open_price), amount, direction) == amount,
{
}

/// Collecting twice. Where a player has collected, the amount was not
/// nothing, and a second call right after it finds nothing to claim: no
/// bet is paid twice.
pub proof fn lemma_collect_twice(market: MarketView, player: Seq<char>)
    requires
        market.wf(),
        market.collect_result(player) is Ok,
    ensures
        market.collect_result(player).unwrap().1 > 0,
        market.collect_result(player).unwrap().0.pending_reward(player) == 0,
        market.collect_result(player).unwrap().0.collect_result(player) == Err::<
            (MarketView, u128),
            ContractError,
        >(ContractError::NothingToClaim),
{
    let after = market.collected(player);
    let games = after.games_of(player);
    lemma_pending_reward_fits(market, player);
    assert forall|k: int| 0 <= k < games.len() implies (#[trigger] games[k]).round_id
        >= after.rounds.len() by {
        lemma_filter_member(after.bets, range_of(player, None, None), k);
        let i = choose|i: int| 0 <= i < after.bets.len() && #[trigger] after.bets[i] == games[k];
        lemma_filter_member(market.bets, unsettled(player, market.finished()), i);
    }
    lemma_winnings_unsettled(after.rounds, games);
}

} // verus!
