//! The bet ledger: every bet that has been placed and not yet collected.
//!
//! A record is found by its round and its player, which no two records
//! share. The records are kept in the order of their rounds. Beside them
//! the ledger keeps an index by player, which holds for each player the
//! bets of that player in the same order; every change of the records
//! changes the index with them. The bets of one player are listed from
//! the index, from the oldest round to the newest or the other way round.

use crate::msg::Direction;
use crate::state::{BetInfo, BetInfoKey};
use vstd::prelude::*;

verus! {

/// The direction in which a range of records is listed.
#[derive(Clone, Copy, Debug, PartialEq, Eq, Structural)]
pub enum Order {
    Ascending,
    Descending,
}

/// `bet` is the bet of `player` in round `round_id`.
pub open spec fn has_key(bet: BetInfo, round_id: u128, player: Seq<char>) -> bool {
    bet.round_id == round_id && bet.player@ == player
}

/// `bets` holds a bet of `player` in round `round_id`.
pub open spec fn holds(bets: Seq<BetInfo>, round_id: u128, player: Seq<char>) -> bool {
    exists|i: int| 0 <= i < bets.len() && has_key(#[trigger] bets[i], round_id, player)
}

/// The record at index `i` is the first of `bets` with the given key.
pub open spec fn is_first(bets: Seq<BetInfo>, i: int, round_id: u128, player: Seq<char>) -> bool {
    &&& 0 <= i < bets.len()
    &&& has_key(bets[i], round_id, player)
    &&& !holds(bets.take(i), round_id, player)
}

/// The bet of `player` in round `round_id`, if `bets` holds one: the
/// first, should there be several.
pub open spec fn lookup(bets: Seq<BetInfo>, round_id: u128, player: Seq<char>) -> Option<BetInfo> {
    if holds(bets, round_id, player) {
        Some(bets[choose|i: int| is_first(bets, i, round_id, player)])
    } else {
        None
    }
}

/// There is only one first record with a given key.
pub proof fn lemma_lookup(bets: Seq<BetInfo>, i: int, round_id: u128, player: Seq<char>)
    requires
        is_first(bets, i, round_id, player),
    ensures
        lookup(bets, round_id, player) == Some(bets[i]),
{
    let c = choose|c: int| is_first(bets, c, round_id, player);
    if c < i {
        assert(has_key(bets.take(i)[c], round_id, player));
    } else if i < c {
        assert(has_key(bets.take(c)[i], round_id, player));
    }
}

/// No two records of `bets` belong to the same player and round.
pub open spec fn unique_keys(bets: Seq<BetInfo>) -> bool {
    forall|i: int, j: int|
        0 <= i < j < bets.len() ==> !has_key(
            #[trigger] bets[i],
            (#[trigger] bets[j]).round_id,
            bets[j].player@,
        )
}

/// The records of `bets` stand in the order of their rounds.
pub open spec fn ordered_by_round(bets: Seq<BetInfo>) -> bool {
    forall|i: int, j: int|
        0 <= i <= j < bets.len() ==> (#[trigger] bets[i]).round_id <= (#[trigger] bets[j]).round_id
}

/// What `bet` adds to the stakes on `direction` in round `round_id`.
pub open spec fn stake_on(bet: BetInfo, round_id: u128, direction: Direction) -> int {
    if bet.round_id == round_id && bet.direction == direction {
        bet.amount as int
    } else {
        0
    }
}

/// The sum of the stakes that `bets` hold on `direction` in round
/// `round_id`.
pub open spec fn staked(bets: Seq<BetInfo>, round_id: u128, direction: Direction) -> int
    decreases bets.len(),
{
    if bets.len() == 0 {
        0
    } else {
        staked(bets.drop_last(), round_id, direction) + stake_on(bets.last(), round_id, direction)
    }
}

/// `bet` belongs to `player` and its round lies strictly between the two
/// bounds, as far as they are given.
pub open spec fn in_range(
    bet: BetInfo,
    player: Seq<char>,
    after: Option<u128>,
    before: Option<u128>,
) -> bool {
    &&& bet.player@ == player
    &&& (after matches Some(a) ==> a < bet.round_id)
    &&& (before matches Some(b) ==> bet.round_id < b)
}

/// [`in_range`] as a predicate on records.
pub open spec fn range_of(player: Seq<char>, after: Option<u128>, before: Option<u128>) -> spec_fn(
    BetInfo,
) -> bool {
    |bet: BetInfo| in_range(bet, player, after, before)
}

/// The bets of `player` in the rounds strictly between the two bounds, in
/// the order of the ledger.
pub open spec fn select(
    bets: Seq<BetInfo>,
    player: Seq<char>,
    after: Option<u128>,
    before: Option<u128>,
) -> Seq<BetInfo> {
    bets.filter(range_of(player, after, before))
}

/// `bet` is not a bet of `player` in one of the first `finished` rounds.
pub open spec fn unsettled_for(bet: BetInfo, player: Seq<char>, finished: int) -> bool {
    !(bet.player@ == player && bet.round_id < finished)
}

/// [`unsettled_for`] as a predicate on records.
pub open spec fn unsettled(player: Seq<char>, finished: int) -> spec_fn(BetInfo) -> bool {
    |bet: BetInfo| unsettled_for(bet, player, finished)
}

/// `bets` without the bets of `player` in the first `finished` rounds.
pub open spec fn without_settled(bets: Seq<BetInfo>, player: Seq<char>, finished: int) -> Seq<
    BetInfo,
> {
    bets.filter(unsettled(player, finished))
}

/// Filtering one record more either appends it or changes nothing.
pub proof fn lemma_filter_next<A>(s: Seq<A>, i: int, keep: spec_fn(A) -> bool)
    requires
        0 <= i < s.len(),
    ensures
        s.take(i + 1).filter(keep) == if keep(s[i]) {
            s.take(i).filter(keep).push(s[i])
        } else {
            s.take(i).filter(keep)
        },
{
    reveal(Seq::filter);
    assert(s.take(i + 1).drop_last() =~= s.take(i));
}

/// Filtering a sequence with one record appended filters the sequence and
/// then decides on the record.
pub proof fn lemma_filter_push<A>(s: Seq<A>, last: A, keep: spec_fn(A) -> bool)
    ensures
        s.push(last).filter(keep) == if keep(last) {
            s.filter(keep).push(last)
        } else {
            s.filter(keep)
        },
{
    reveal(Seq::filter);
    assert(s.push(last).drop_last() =~= s);
}

/// A record that the filter kept was there before, and passes the filter.
pub proof fn lemma_filter_member<A>(s: Seq<A>, keep: spec_fn(A) -> bool, k: int)
    requires
        0 <= k < s.filter(keep).len(),
    ensures
        keep(s.filter(keep)[k]),
        exists|i: int| 0 <= i < s.len() && #[trigger] s[i] == s.filter(keep)[k],
    decreases s.len(),
{
    reveal(Seq::filter);
    if s.len() > 0 {
        let rest = s.drop_last();
        if k < rest.filter(keep).len() {
            lemma_filter_member(rest, keep, k);
            let i = choose|i: int| 0 <= i < rest.len() && #[trigger] rest[i] == rest.filter(keep)[k];
            assert(s[i] == s.filter(keep)[k]);
        } else {
            assert(s[s.len() - 1] == s.filter(keep)[k]);
        }
    }
}

/// Appending a record adds its stake to the round and direction it names,
/// and to no other.
pub proof fn lemma_staked_push(bets: Seq<BetInfo>, bet: BetInfo, round_id: u128, direction: Direction)
    ensures
        staked(bets.push(bet), round_id, direction) == staked(bets, round_id, direction)
            + stake_on(bet, round_id, direction),
{
    assert(bets.push(bet).drop_last() =~= bets);
}

/// Stakes are never negative.
pub proof fn lemma_staked_nonnegative(bets: Seq<BetInfo>, round_id: u128, direction: Direction)
    ensures
        0 <= staked(bets, round_id, direction),
    decreases bets.len(),
{
    if bets.len() > 0 {
        lemma_staked_nonnegative(bets.drop_last(), round_id, direction);
    }
}

/// A single record stakes no more than all the records of its round and
/// direction together.
pub proof fn lemma_staked_covers(bets: Seq<BetInfo>, i: int)
    requires
        0 <= i < bets.len(),
    ensures
        bets[i].amount <= staked(bets, bets[i].round_id, bets[i].direction),
    decreases bets.len(),
{
    let rest = bets.drop_last();
    lemma_staked_nonnegative(rest, bets[i].round_id, bets[i].direction);
    if i < bets.len() - 1 {
        lemma_staked_covers(rest, i);
    }
}

/// Where no record belongs to round `round_id`, nothing is staked in it.
pub proof fn lemma_staked_absent(bets: Seq<BetInfo>, round_id: u128, direction: Direction)
    requires
        forall|i: int| 0 <= i < bets.len() ==> (#[trigger] bets[i]).round_id != round_id,
    ensures
        staked(bets, round_id, direction) == 0,
    decreases bets.len(),
{
    if bets.len() > 0 {
        let rest = bets.drop_last();
        assert forall|i: int| 0 <= i < rest.len() implies (#[trigger] rest[i]).round_id
            != round_id by {
            assert(rest[i] == bets[i]);
        }
        lemma_staked_absent(rest, round_id, direction);
        assert(bets.last() == bets[bets.len() - 1]);
    }
}

/// Taking the settled bets of a player out of the ledger lowers no stake
/// below zero and raises none, and leaves the rounds that have not finished
/// as they were.
pub proof fn lemma_staked_without_settled(
    bets: Seq<BetInfo>,
    player: Seq<char>,
    finished: int,
    round_id: u128,
    direction: Direction,
)
    ensures
        staked(without_settled(bets, player, finished), round_id, direction) <= staked(
            bets,
            round_id,
            direction,
        ),
        round_id >= finished ==> staked(without_settled(bets, player, finished), round_id, direction)
            == staked(bets, round_id, direction),
    decreases bets.len(),
{
    reveal(Seq::filter);
    if bets.len() > 0 {
        let rest = bets.drop_last();
        lemma_staked_without_settled(rest, player, finished, round_id, direction);
        if unsettled_for(bets.last(), player, finished) {
            lemma_staked_push(
                without_settled(rest, player, finished),
                bets.last(),
                round_id,
                direction,
            );
        }
    }
}

/// Taking records out of a ledger keeps its keys unique and its order.
pub proof fn lemma_filter_keeps_order(bets: Seq<BetInfo>, keep: spec_fn(BetInfo) -> bool)
    requires
        unique_keys(bets),
        ordered_by_round(bets),
    ensures
        unique_keys(bets.filter(keep)),
        ordered_by_round(bets.filter(keep)),
    decreases bets.len(),
{
    reveal(Seq::filter);
    if bets.len() > 0 {
        let rest = bets.drop_last();
        let last = bets.last();
        assert forall|i: int, j: int| 0 <= i < j < rest.len() implies !has_key(
            #[trigger] rest[i],
            (#[trigger] rest[j]).round_id,
            rest[j].player@,
        ) by {
            assert(rest[i] == bets[i] && rest[j] == bets[j]);
        }
        assert forall|i: int, j: int| 0 <= i <= j < rest.len() implies (#[trigger] rest[i]).round_id
            <= (#[trigger] rest[j]).round_id by {
            assert(rest[i] == bets[i] && rest[j] == bets[j]);
        }
        lemma_filter_keeps_order(rest, keep);
        if keep(last) {
            let kept = rest.filter(keep);
            let all = bets.filter(keep);
            assert(all == kept.push(last));
            assert forall|i: int, j: int| 0 <= i < j < all.len() implies !has_key(
                #[trigger] all[i],
                (#[trigger] all[j]).round_id,
                all[j].player@,
            ) by {
                if j == kept.len() {
                    lemma_filter_member(rest, keep, i);
                    let k = choose|k: int| 0 <= k < rest.len() && #[trigger] rest[k] == kept[i];
                    assert(bets[k] == rest[k]);
                    assert(bets[bets.len() - 1] == last);
                } else {
                    assert(all[i] == kept[i] && all[j] == kept[j]);
                }
            }
            assert forall|i: int, j: int| 0 <= i <= j < all.len() implies (#[trigger] all[i]).round_id
                <= (#[trigger] all[j]).round_id by {
                if j == kept.len() {
                    if i < j {
                        lemma_filter_member(rest, keep, i);
                        let k = choose|k: int| 0 <= k < rest.len() && #[trigger] rest[k] == kept[i];
                        assert(bets[k] == rest[k]);
                        assert(bets[bets.len() - 1] == last);
                    }
                } else {
                    assert(all[i] == kept[i] && all[j] == kept[j]);
                }
            }
        }
    }
}

/// A listing is in order. In a ledger with unique keys in the order of
/// the rounds, the listed bets of a player all belong to that player and
/// to rounds within the bounds, and are in different rounds, oldest first.
pub proof fn lemma_select_ascending(
    bets: Seq<BetInfo>,
    player: Seq<char>,
    after: Option<u128>,
    before: Option<u128>,
)
    requires
        unique_keys(bets),
        ordered_by_round(bets),
    ensures
        forall|k: int|
            0 <= k < select(bets, player, after, before).len() ==> in_range(
                #[trigger] select(bets, player, after, before)[k],
                player,
                after,
                before,
            ),
        forall|i: int, j: int|
            0 <= i < j < select(bets, player, after, before).len() ==> (#[trigger] select(
                bets,
                player,
                after,
                before,
            )[i]).round_id < (#[trigger] select(bets, player, after, before)[j]).round_id,
{
    let listed = select(bets, player, after, before);
    let within = range_of(player, after, before);
    lemma_filter_keeps_order(bets, within);
    assert forall|k: int| 0 <= k < listed.len() implies in_range(
        #[trigger] listed[k],
        player,
        after,
        before,
    ) by {
        lemma_filter_member(bets, within, k);
    }
    assert forall|i: int, j: int| 0 <= i < j < listed.len() implies (#[trigger] listed[i]).round_id
        < (#[trigger] listed[j]).round_id by {
        assert(in_range(listed[i], player, after, before));
        assert(in_range(listed[j], player, after, before));
        assert(!has_key(listed[i], listed[j].round_id, listed[j].player@));
    }
}

/// Both predicates hold.
pub open spec fn both<A>(first: spec_fn(A) -> bool, second: spec_fn(A) -> bool) -> spec_fn(
    A,
) -> bool {
    |a: A| first(a) && second(a)
}

/// Filtering twice is filtering by both predicates.
pub proof fn lemma_filter_twice<A>(s: Seq<A>, first: spec_fn(A) -> bool, second: spec_fn(A) -> bool)
    ensures
        s.filter(first).filter(second) == s.filter(both(first, second)),
    decreases s.len(),
{
    reveal(Seq::filter);
    if s.len() > 0 {
        lemma_filter_twice(s.drop_last(), first, second);
        if first(s.last()) {
            lemma_filter_push(s.drop_last().filter(first), s.last(), second);
        }
    }
}

/// Predicates that agree on every record of a sequence filter it alike.
pub proof fn lemma_filter_alike<A>(s: Seq<A>, first: spec_fn(A) -> bool, second: spec_fn(A) -> bool)
    requires
        forall|i: int| 0 <= i < s.len() ==> first(#[trigger] s[i]) == second(s[i]),
    ensures
        s.filter(first) == s.filter(second),
    decreases s.len(),
{
    reveal(Seq::filter);
    if s.len() > 0 {
        let rest = s.drop_last();
        assert forall|i: int| 0 <= i < rest.len() implies first(#[trigger] rest[i]) == second(
            rest[i],
        ) by {
            assert(rest[i] == s[i]);
        }
        lemma_filter_alike(rest, first, second);
        assert(s.last() == s[s.len() - 1]);
    }
}

/// A filter that every record passes changes nothing, and one that no
/// record passes leaves nothing.
pub proof fn lemma_filter_all_or_none<A>(s: Seq<A>, keep: spec_fn(A) -> bool)
    ensures
        (forall|i: int| 0 <= i < s.len() ==> keep(#[trigger] s[i])) ==> s.filter(keep) == s,
        (forall|i: int| 0 <= i < s.len() ==> !keep(#[trigger] s[i])) ==> s.filter(keep)
            == Seq::<A>::empty(),
    decreases s.len(),
{
    reveal(Seq::filter);
    if s.len() > 0 {
        let rest = s.drop_last();
        lemma_filter_all_or_none(rest, keep);
        assert(s.last() == s[s.len() - 1]);
        if forall|i: int| 0 <= i < s.len() ==> keep(#[trigger] s[i]) {
            assert forall|i: int| 0 <= i < rest.len() implies keep(#[trigger] rest[i]) by {
                assert(rest[i] == s[i]);
            }
            assert(rest.push(s.last()) =~= s);
        }
        if forall|i: int| 0 <= i < s.len() ==> !keep(#[trigger] s[i]) {
            assert forall|i: int| 0 <= i < rest.len() implies !keep(#[trigger] rest[i]) by {
                assert(rest[i] == s[i]);
            }
        }
    }
}

/// Listing a range of the bets of a player from the list of all bets of
/// that player gives what listing it from the ledger gives.
pub proof fn lemma_select_from_games(
    bets: Seq<BetInfo>,
    player: Seq<char>,
    after: Option<u128>,
    before: Option<u128>,
)
    ensures
        select(select(bets, player, None, None), player, after, before) == select(
            bets,
            player,
            after,
            before,
        ),
{
    let all = range_of(player, None, None);
    let some = range_of(player, after, before);
    lemma_filter_twice(bets, all, some);
    lemma_filter_alike(bets, both(all, some), some);
}

/// The bets of one player, as the index holds them.
#[derive(Debug, PartialEq, Eq)]
pub struct PlayerGames {
    pub player: String,
    /// The bets of the player, oldest round first.
    pub games: Vec<BetInfo>,
}

/// The indexes of the ledger. There is one, by player.
#[derive(Debug, PartialEq, Eq)]
pub struct BetInfoIndicies {
    pub player: Vec<PlayerGames>,
}

/// Copies the bets of `bets` that belong to `player` and whose rounds lie
/// strictly between the two bounds, in their order.
fn scan(bets: &Vec<BetInfo>, player: &String, after: Option<u128>, before: Option<u128>) -> (found:
    Vec<BetInfo>)
    ensures
        found@ == select(bets@, player@, after, before),
{
    let mut found: Vec<BetInfo> = Vec::new();
    let mut i: usize = 0;
    while i < bets.len()
        invariant
            i <= bets.len(),
            found@ == select(bets@.take(i as int), player@, after, before),
        decreases bets.len() - i,
    {
        let bet = &bets[i];
        let above = match after {
            Some(a) => a < bet.round_id,
            None => true,
        };
        let below = match before {
            Some(b) => bet.round_id < b,
            None => true,
        };
        proof {
            lemma_filter_next(bets@, i as int, range_of(player@, after, before));
        }
        if bet.player == *player && above && below {
            found.push(bet.clone());
        }
        i += 1;
    }
    assert(bets@.take(bets.len() as int) =~= bets@);
    found
}

/// Copies the bets of `bets` but those of `player` in the first `finished`
/// rounds, in their order.
fn scan_unsettled(bets: &Vec<BetInfo>, player: &String, finished: usize) -> (kept: Vec<BetInfo>)
    ensures
        kept@ == without_settled(bets@, player@, finished as int),
{
    let mut kept: Vec<BetInfo> = Vec::new();
    let mut i: usize = 0;
    while i < bets.len()
        invariant
            i <= bets.len(),
            kept@ == without_settled(bets@.take(i as int), player@, finished as int),
        decreases bets.len() - i,
    {
        let bet = &bets[i];
        proof {
            lemma_filter_next(bets@, i as int, unsettled(player@, finished as int));
        }
        if !(bet.player == *player && bet.round_id < finished as u128) {
            kept.push(bet.clone());
        }
        i += 1;
    }
    assert(bets@.take(bets.len() as int) =~= bets@);
    kept
}

/// Copies `bets`.
fn copied(bets: &Vec<BetInfo>) -> (copy: Vec<BetInfo>)
    ensures
        copy@ == bets@,
{
    let mut copy: Vec<BetInfo> = Vec::new();
    let mut i: usize = 0;
    while i < bets.len()
        invariant
            i <= bets.len(),
            copy@ == bets@.take(i as int),
        decreases bets.len() - i,
    {
        copy.push(bets[i].clone());
        assert(bets@.take(i + 1) =~= bets@.take(i as int).push(bets@[i as int]));
        i += 1;
    }
    assert(bets@.take(bets.len() as int) =~= bets@);
    copy
}

/// Copies `bets` in the reverse order.
fn reversed(bets: &Vec<BetInfo>) -> (found: Vec<BetInfo>)
    ensures
        found@ == bets@.reverse(),
{
    let mut found: Vec<BetInfo> = Vec::new();
    let mut left: usize = bets.len();
    while left > 0
        invariant
            left <= bets.len(),
            found@.len() == bets.len() - left,
            forall|k: int| 0 <= k < found@.len() ==> found@[k] == bets@[bets.len() - 1 - k],
        decreases left,
    {
        left -= 1;
        found.push(bets[left].clone());
    }
    assert(found@ =~= bets@.reverse());
    found
}

impl BetInfoIndicies {
    /// The index has an entry for `player`.
    pub open spec fn lists(self, player: Seq<char>) -> bool {
        exists|i: int| 0 <= i < self.player@.len() && (#[trigger] self.player@[i]).player@ == player
    }

    /// The index is the index of `bets`: it has an entry for each player
    /// who has a bet among them, and no two for the same player, and each
    /// entry holds the bets of its player in their order.
    pub open spec fn indexes(self, bets: Seq<BetInfo>) -> bool {
        &&& forall|i: int, j: int|
            0 <= i < j < self.player@.len() ==> (#[trigger] self.player@[i]).player@
                != (#[trigger] self.player@[j]).player@
        &&& forall|i: int|
            0 <= i < self.player@.len() ==> (#[trigger] self.player@[i]).games@ == select(
                bets,
                self.player@[i].player@,
                None,
                None,
            )
        &&& forall|k: int| 0 <= k < bets.len() ==> self.lists((#[trigger] bets[k]).player@)
    }

    /// The index of no bets.
    pub fn new() -> (idx: BetInfoIndicies)
        ensures
            idx.indexes(Seq::empty()),
            idx.player@.len() == 0,
    {
        BetInfoIndicies { player: Vec::new() }
    }

    /// Where the first entry of `player` stands, if there is one.
    pub fn find(&self, player: &String) -> (found: Option<usize>)
        ensures
            found matches Some(i) ==> i < self.player@.len() && self.player@[i as int].player@
                == player@ && forall|k: int|
                0 <= k < i ==> (#[trigger] self.player@[k]).player@ != player@,
            found is None ==> !self.lists(player@),
    {
        let mut i: usize = 0;
        while i < self.player.len()
            invariant
                i <= self.player.len(),
                forall|k: int| 0 <= k < i ==> (#[trigger] self.player@[k]).player@ != player@,
            decreases self.player.len() - i,
        {
            if self.player[i].player == *player {
                return Some(i);
            }
            i += 1;
        }
        None
    }

    /// Enters a bet that is appended to `bets`.
    fn add(&mut self, bet: &BetInfo, Ghost(bets): Ghost<Seq<BetInfo>>)
        requires
            old(self).indexes(bets),
        ensures
            final(self).indexes(bets.push(*bet)),
    {
        let ghost before = self.player@;
        let ghost mut entered: int = 0;
        match self.find(&bet.player) {
            Some(i) => {
                let mut entry = self.player.remove(i);
                entry.games.push(bet.clone());
                self.player.insert(i, entry);
                assert(self.player@ =~= before.update(i as int, entry));
                proof {
                    entered = i as int;
                }
            },
            None => {
                let mut games: Vec<BetInfo> = Vec::new();
                games.push(bet.clone());
                proof {
                    assert forall|k: int| 0 <= k < bets.len() implies !range_of(
                        bet.player@,
                        None,
                        None,
                    )(#[trigger] bets[k]) by {
                        if bets[k].player@ == bet.player@ {
                            assert(old(self).lists(bets[k].player@));
                        }
                    }
                    lemma_filter_all_or_none(bets, range_of(bet.player@, None, None));
                    assert(games@ =~= Seq::<BetInfo>::empty().push(*bet));
                }
                self.player.push(PlayerGames { player: bet.player.clone(), games });
                proof {
                    entered = before.len() as int;
                }
            },
        }
        proof {
            let after = self.player@;
            let all = bets.push(*bet);
            assert forall|i: int| 0 <= i < after.len() implies (#[trigger] after[i]).games@
                == select(all, after[i].player@, None, None) by {
                lemma_filter_push(bets, *bet, range_of(after[i].player@, None, None));
                if i < before.len() {
                    assert(before[i].games@ == select(bets, before[i].player@, None, None));
                }
            }
            assert forall|k: int| 0 <= k < all.len() implies self.lists(
                (#[trigger] all[k]).player@,
            ) by {
                if k < bets.len() {
                    assert(old(self).lists(bets[k].player@));
                    let i = choose|i: int|
                        0 <= i < before.len() && (#[trigger] before[i]).player@ == bets[k].player@;
                    assert(after[i].player@ == bets[k].player@);
                } else {
                    assert(after[entered].player@ == bet.player@);
                }
            }
        }
    }
}

/// The ledger of bets.
#[derive(Debug, PartialEq, Eq)]
pub struct BetLedger {
    bets: Vec<BetInfo>,
    idx: BetInfoIndicies,
}

impl View for BetLedger {
    type V = Seq<BetInfo>;

    closed spec fn view(&self) -> Seq<BetInfo> {
        self.bets@
    }
}

impl Clone for PlayerGames {
    fn clone(&self) -> (copy: Self)
        ensures
            copy.player@ == self.player@,
            copy.games@ == self.games@,
    {
        PlayerGames { player: self.player.clone(), games: copied(&self.games) }
    }
}

impl Clone for BetInfoIndicies {
    fn clone(&self) -> (copy: Self)
        ensures
            copy.player@.len() == self.player@.len(),
            forall|i: int|
                0 <= i < self.player@.len() ==> (#[trigger] copy.player@[i]).player@
                    == self.player@[i].player@ && copy.player@[i].games@ == self.player@[i].games@,
    {
        let mut player: Vec<PlayerGames> = Vec::new();
        let mut i: usize = 0;
        while i < self.player.len()
            invariant
                i <= self.player.len(),
                player@.len() == i,
                forall|k: int|
                    0 <= k < i ==> (#[trigger] player@[k]).player@ == self.player@[k].player@
                        && player@[k].games@ == self.player@[k].games@,
            decreases self.player.len() - i,
        {
            player.push(self.player[i].clone());
            i += 1;
        }
        BetInfoIndicies { player }
    }
}

impl Clone for BetLedger {
    fn clone(&self) -> (copy: Self)
        ensures
            copy@ == self@,
    {
        proof {
            use_type_invariant(self);
        }
        let idx = self.idx.clone();
        proof {
            assert forall|k: int| 0 <= k < self@.len() implies idx.lists(
                (#[trigger] self@[k]).player@,
            ) by {
                assert(self.idx.lists(self@[k].player@));
                let i = choose|i: int|
                    0 <= i < self.idx.player@.len() && (#[trigger] self.idx.player@[i]).player@
                        == self@[k].player@;
                assert(idx.player@[i].player@ == self@[k].player@);
            }
        }
        BetLedger { bets: copied(&self.bets), idx }
    }
}

impl BetLedger {
    /// The index is the index of the records.
    #[verifier::type_invariant]
    spec fn indexed(self) -> bool {
        self.idx.indexes(self.bets@)
    }

    /// No two records share a player and a round, and the records stand in
    /// the order of their rounds.
    pub open spec fn wf(self) -> bool {
        unique_keys(self@) && ordered_by_round(self@)
    }

    /// The empty ledger.
    pub fn new() -> (ledger: BetLedger)
        ensures
            ledger@ == Seq::<BetInfo>::empty(),
            ledger.wf(),
    {
        BetLedger { bets: Vec::new(), idx: BetInfoIndicies::new() }
    }

    /// The ledger of the given records, in their order.
    pub fn from_bets(bets: Vec<BetInfo>) -> (ledger: BetLedger)
        ensures
            ledger@ == bets@,
    {
        let mut idx = BetInfoIndicies::new();
        let mut i: usize = 0;
        while i < bets.len()
            invariant
                i <= bets.len(),
                idx.indexes(bets@.take(i as int)),
            decreases bets.len() - i,
        {
            idx.add(&bets[i], Ghost(bets@.take(i as int)));
            assert(bets@.take(i + 1) =~= bets@.take(i as int).push(bets@[i as int]));
            i += 1;
        }
        assert(bets@.take(bets.len() as int) =~= bets@);
        BetLedger { bets, idx }
    }

    /// The records, in the order of their rounds.
    pub fn records(&self) -> (bets: &Vec<BetInfo>)
        ensures
            bets@ == self@,
    {
        &self.bets
    }

    /// The index by player.
    pub fn indexes(&self) -> (idx: &BetInfoIndicies)
        ensures
            idx.indexes(self@),
    {
        proof {
            use_type_invariant(self);
        }
        &self.idx
    }

    /// The number of records.
    pub fn len(&self) -> (n: usize)
        ensures
            n == self@.len(),
    {
        self.bets.len()
    }

    /// The record with the given key, if there is one.
    pub fn may_load(&self, key: &BetInfoKey) -> (found: Option<BetInfo>)
        ensures
            found == lookup(self@, key.0, key.1@),
    {
        let mut i: usize = 0;
        while i < self.bets.len()
            invariant
                i <= self.bets.len(),
                !holds(self@.take(i as int), key.0, key.1@),
            decreases self.bets.len() - i,
        {
            let bet = &self.bets[i];
            if bet.round_id == key.0 && bet.player == key.1 {
                proof {
                    lemma_lookup(self@, i as int, key.0, key.1@);
                }
                return Some(bet.clone());
            }
            proof {
                let next = self@.take(i + 1);
                assert forall|k: int| 0 <= k < next.len() implies !has_key(
                    #[trigger] next[k],
                    key.0,
                    key.1@,
                ) by {
                    if k < i {
                        assert(self@.take(i as int)[k] == next[k]);
                    }
                }
            }
            i += 1;
        }
        assert(self@.take(self.bets.len() as int) =~= self@);
        None
    }

    /// The bets of `player` in the rounds strictly between the two bounds,
    /// as far as they are given, from the oldest round to the newest or the
    /// other way round. They are read from the index.
    pub fn player_range(
        &self,
        player: &String,
        after: Option<u128>,
        before: Option<u128>,
        order: Order,
    ) -> (found: Vec<BetInfo>)
        ensures
            order == Order::Ascending ==> found@ == select(self@, player@, after, before),
            order == Order::Descending ==> found@ == select(
                self@,
                player@,
                after,
                before,
            ).reverse(),
    {
        proof {
            use_type_invariant(self);
        }
        let ascending = match self.idx.find(player) {
            Some(i) => {
                proof {
                    lemma_select_from_games(self@, player@, after, before);
                }
                scan(&self.idx.player[i].games, player, after, before)
            },
            None => {
                proof {
                    assert forall|k: int| 0 <= k < self@.len() implies !range_of(
                        player@,
                        after,
                        before,
                    )(#[trigger] self@[k]) by {
                        if self@[k].player@ == player@ {
                            assert(self.idx.lists(self@[k].player@));
                        }
                    }
                    lemma_filter_all_or_none(self@, range_of(player@, after, before));
                }
                Vec::new()
            },
        };
        match order {
            Order::Ascending => ascending,
            Order::Descending => reversed(&ascending),
        }
    }

    /// Appends a bet whose key the ledger does not hold yet and whose round
    /// is not older than any recorded round.
    pub(crate) fn append(&mut self, bet: BetInfo)
        requires
            old(self).wf(),
            !holds(old(self)@, bet.round_id, bet.player@),
            forall|i: int| 0 <= i < old(self)@.len() ==> (#[trigger] old(self)@[i]).round_id <= bet.round_id,
        ensures
            final(self)@ == old(self)@.push(bet),
            final(self).wf(),
    {
        proof {
            use_type_invariant(&*self);
        }
        let mut taken = BetLedger::new();
        std::mem::swap(self, &mut taken);
        let BetLedger { mut bets, mut idx } = taken;
        idx.add(&bet, Ghost(bets@));
        bets.push(bet);
        *self = BetLedger { bets, idx };
    }

    /// Takes the bets of `player` in the first `finished` rounds out of the
    /// ledger, and out of the index with them.
    pub(crate) fn remove_settled(&mut self, player: &String, finished: usize)
        requires
            old(self).wf(),
        ensures
            final(self)@ == without_settled(old(self)@, player@, finished as int),
            final(self).wf(),
    {
        proof {
            lemma_filter_keeps_order(self@, unsettled(player@, finished as int));
        }
        let kept = scan_unsettled(&self.bets, player, finished);
        *self = BetLedger::from_bets(kept);
    }
}

} // verus!
