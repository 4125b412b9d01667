//! The tournament: players, the pool of playable cards, and the game loop.

pub mod card;
pub mod player;
pub mod duel;
pub mod state;

use vstd::prelude::*;
use vstd::seq_lib::*;
use vstd::multiset::Multiset;
use crate::chance::shuffle;
use crate::game::card::Card;
use crate::game::duel::{DuelResult, ends, settle, settles, lemma_settle_conserves, ready_to_duel};
use crate::game::player::{Availability, Player};

verus! {

broadcast use vstd::seq_lib::group_to_multiset_ensures;

/// How many cards of each kind are still in play.
#[derive(Clone, Copy, Debug, PartialEq, Eq, Structural)]
pub struct CardCount {
    pub rock: usize,
    pub paper: usize,
    pub scissors: usize,
}

/// How many times `c` occurs in `cards`.
pub open spec fn occurrences(cards: Seq<Card>, c: Card) -> nat {
    cards.to_multiset().count(c)
}

impl CardCount {
    /// The count kept for cards of kind `c`.
    pub open spec fn of(self, c: Card) -> int {
        match c {
            Card::Rock => self.rock as int,
            Card::Paper => self.paper as int,
            Card::Scissors => self.scissors as int,
        }
    }

    /// The number of cards of all kinds.
    pub open spec fn sum(self) -> int {
        self.rock + self.paper + self.scissors
    }

    /// The largest of the three counts.
    pub open spec fn largest(self) -> int {
        if self.rock >= self.paper && self.rock >= self.scissors {
            self.rock as int
        } else if self.paper >= self.scissors {
            self.paper as int
        } else {
            self.scissors as int
        }
    }

    /// A count with `initial_count` cards of each kind.
    pub fn new(initial_count: usize) -> (r: CardCount)
        ensures
            r.rock == initial_count,
            r.paper == initial_count,
            r.scissors == initial_count,
    {
        CardCount { rock: initial_count, paper: initial_count, scissors: initial_count }
    }

    /// The number of cards of all kinds.
    pub fn total(&self) -> (r: usize)
        requires
            self.sum() <= usize::MAX,
        ensures
            r == self.sum(),
    {
        self.rock + self.paper + self.scissors
    }

    /// Takes `cards` out of the count, one per card.
    pub fn remove(&mut self, cards: Vec<Card>)
        requires
            forall|c: Card| occurrences(cards@, c) <= #[trigger] old(self).of(c),
        ensures
            forall|c: Card| #[trigger] final(self).of(c) == old(self).of(c) - occurrences(cards@, c),
    {
        let ghost start = *self;
        let n = cards.len();
        for i in 0..n
            invariant
                n == cards@.len(),
                forall|c: Card| occurrences(cards@, c) <= #[trigger] start.of(c),
                forall|c: Card|
                    #[trigger] self.of(c) == start.of(c) - occurrences(cards@.take(i as int), c),
        {
            let ghost before = *self;
            proof {
                let whole = cards@;
                let c0 = whole[i as int];
                assert(whole =~= whole.take(i as int) + whole.skip(i as int));
                lemma_multiset_commutative(whole.take(i as int), whole.skip(i as int));
                assert(whole.skip(i as int)[0] == c0);
                assert(whole.skip(i as int).contains(c0));
                assert(occurrences(whole.skip(i as int), c0) > 0);
                assert(occurrences(cards@, c0) <= start.of(c0));
                assert(self.of(c0) == start.of(c0) - occurrences(cards@.take(i as int), c0));
                assert(self.of(c0) >= 1);
            }
            match cards[i] {
                Card::Rock => self.rock = self.rock - 1,
                Card::Paper => self.paper = self.paper - 1,
                Card::Scissors => self.scissors = self.scissors - 1,
            }
            proof {
                let whole = cards@;
                let c0 = whole[i as int];
                assert(whole.take(i as int + 1) =~= whole.take(i as int).push(c0));
                assert forall|c: Card| #[trigger] self.of(c) == start.of(c) - occurrences(cards@.take(i + 1), c) by {
                    assert(before.of(c) == start.of(c) - occurrences(cards@.take(i as int), c));
                }
            }
        }
        proof {
            assert(cards@.take(n as int) =~= cards@);
        }
    }

    /// The largest of the three counts.
    pub fn max(&self) -> (r: usize)
        ensures
            r == self.largest(),
    {
        if self.rock >= self.paper && self.rock >= self.scissors {
            self.rock
        } else if self.paper >= self.scissors {
            self.paper
        } else {
            self.scissors
        }
    }
}

/// The largest count is one of the three counts, and no count exceeds it.
pub proof fn lemma_largest_is_maximum(c: CardCount)
    ensures
        c.largest() >= c.rock,
        c.largest() >= c.paper,
        c.largest() >= c.scissors,
        c.largest() == c.rock || c.largest() == c.paper || c.largest() == c.scissors,
        forall|k: Card| #[trigger] c.of(k) <= c.largest(),
        exists|k: Card| #[trigger] c.of(k) == c.largest(),
{
    assert(c.of(Card::Rock) == c.rock && c.of(Card::Paper) == c.paper && c.of(Card::Scissors) == c.scissors);
}

/// The stars that a player starts with.
pub const START_STARS: usize = 3;

/// The stars that a player needs to win.
pub const TARGET_STARS: usize = 5;

/// The cards of each kind in a starting hand.
pub const CARDS_PER_KIND: usize = 4;

pub open spec fn star_step() -> spec_fn(int, Player) -> int {
    |acc: int, p: Player| acc + p.star
}

pub open spec fn pool_step() -> spec_fn(Multiset<Card>, Player) -> Multiset<Card> {
    |acc: Multiset<Card>, p: Player| acc.add(p.cards@.to_multiset())
}

pub open spec fn roster_step() -> spec_fn(Multiset<Seq<char>>, Player) -> Multiset<Seq<char>> {
    |acc: Multiset<Seq<char>>, p: Player| acc.insert(p.name@)
}

/// The stars of all players of `s` together.
pub open spec fn total_stars(s: Seq<Player>) -> int {
    s.fold_left(0int, star_step())
}

/// The cards in the hands of all players of `s`.
pub open spec fn pooled_cards(s: Seq<Player>) -> Multiset<Card> {
    s.fold_left(Multiset::empty(), pool_step())
}

/// The names of the players of `s`, with repetitions.
pub open spec fn roster(s: Seq<Player>) -> Multiset<Seq<char>> {
    s.fold_left(Multiset::empty(), roster_step())
}

proof fn lemma_push(s: Seq<Player>, p: Player)
    ensures
        total_stars(s.push(p)) == total_stars(s) + p.star,
        pooled_cards(s.push(p)) == pooled_cards(s).add(p.cards@.to_multiset()),
        roster(s.push(p)) == roster(s).insert(p.name@),
{
    assert(s.push(p).drop_last() =~= s);
}

proof fn lemma_empty(s: Seq<Player>)
    requires
        s.len() == 0,
    ensures
        total_stars(s) == 0,
        pooled_cards(s) == Multiset::<Card>::empty(),
        roster(s) == Multiset::<Seq<char>>::empty(),
{
}

/// The totals do not depend on the order of the players.
proof fn lemma_permuted(s1: Seq<Player>, s2: Seq<Player>)
    requires
        s1.to_multiset() == s2.to_multiset(),
    ensures
        total_stars(s1) == total_stars(s2),
        pooled_cards(s1) == pooled_cards(s2),
        roster(s1) == roster(s2),
{
    broadcast use vstd::multiset::group_multiset_axioms;
    assert(commutative_foldl(star_step()));
    assert forall|x: Player, y: Player, v: Multiset<Card>|
        #[trigger] pool_step()(pool_step()(v, x), y) == pool_step()(pool_step()(v, y), x) by {
        assert(pool_step()(pool_step()(v, x), y) =~= pool_step()(pool_step()(v, y), x));
    }
    assert forall|x: Player, y: Player, v: Multiset<Seq<char>>|
        #[trigger] roster_step()(roster_step()(v, x), y) == roster_step()(roster_step()(v, y), x) by {
        assert(roster_step()(roster_step()(v, x), y) =~= roster_step()(roster_step()(v, y), x));
    }
    lemma_fold_left_permutation(s1, s2, star_step(), 0int);
    lemma_fold_left_permutation(s1, s2, pool_step(), Multiset::empty());
    lemma_fold_left_permutation(s1, s2, roster_step(), Multiset::empty());
}

/// Every player holds at most the stars and cards of the whole group.
proof fn lemma_member_bounded(s: Seq<Player>, i: int)
    requires
        0 <= i < s.len(),
    ensures
        s[i].star <= total_stars(s),
        forall|c: Card| #[trigger] pooled_cards(s).count(c) >= s[i].cards@.to_multiset().count(c),
    decreases s.len(),
{
    broadcast use vstd::multiset::group_multiset_axioms;
    let init = s.drop_last();
    assert(s =~= init.push(s.last()));
    lemma_push(init, s.last());
    lemma_nonnegative(init);
    if i < s.len() - 1 {
        lemma_member_bounded(init, i);
        assert(init[i] == s[i]);
    }
}

proof fn lemma_nonnegative(s: Seq<Player>)
    ensures
        total_stars(s) >= 0,
    decreases s.len(),
{
    if s.len() > 0 {
        let init = s.drop_last();
        assert(s =~= init.push(s.last()));
        lemma_push(init, s.last());
        lemma_nonnegative(init);
    }
}

/// The cards of a starting hand: four times rock, paper and scissors.
pub open spec fn starting_hand(cards: Seq<Card>) -> bool {
    forall|c: Card| #[trigger] occurrences(cards, c) == CARDS_PER_KIND
}

/// A tournament and its players.
pub struct Game {
    pub players: Vec<Player>,
    pub is_playing: bool,
}

/// What happened to a player who left the tournament.
pub enum GameEvent {
    /// The player was left without an opponent and lost.
    NoOpponent(String),
    /// The player won with the given stars.
    Won(String, usize),
    /// The player lost.
    Lost(String),
}

/// The end of a tournament.
pub struct GameReport {
    pub winners: Vec<Player>,
    pub losers: Vec<Player>,
    pub events: Vec<GameEvent>,
}

impl Default for Game {
    fn default() -> (r: Game)
        ensures
            r.players@ == Seq::<Player>::empty(),
            !r.is_playing,
    {
        Self::new()
    }
}

impl Game {
    /// A game without players that has not started.
    pub fn new() -> (r: Game)
        ensures
            r.players@ == Seq::<Player>::empty(),
            !r.is_playing,
    {
        Game { players: Vec::new(), is_playing: false }
    }

    /// Adds `players` at the end of the list, unless the game has started.
    pub fn add_players(&mut self, players: Vec<Player>)
        ensures
            final(self).is_playing == old(self).is_playing,
            final(self).players@ == if old(self).is_playing {
                old(self).players@
            } else {
                old(self).players@ + players@
            },
    {
        if self.is_playing {
            return;
        }
        let mut players = players;
        self.players.append(&mut players);
    }

    /// Adds `player` at the end of the list, unless the game has started.
    pub fn add_player(&mut self, player: Player)
        ensures
            final(self).is_playing == old(self).is_playing,
            final(self).players@ == if old(self).is_playing {
                old(self).players@
            } else {
                old(self).players@.push(player)
            },
    {
        if self.is_playing {
            return;
        }
        self.players.push(player);
    }

    /// Draws two players at random to duel, unless fewer than two wait.
    fn matchmaking(players: &mut Vec<Player>) -> (r: Option<(Player, Player)>)
        ensures
            match r {
                None => old(players)@.len() < 2 && final(players)@ == old(players)@,
                Some((player1, player2)) => final(players)@.push(player2).push(player1).to_multiset()
                    == old(players)@.to_multiset(),
            },
    {
        if players.len() < 2 {
            return None;
        }
        let ghost before = players@;
        shuffle(players);
        let ghost shuffled = players@;
        proof {
            assert(shuffled.to_multiset().len() == before.to_multiset().len());
        }
        let player1 = players.pop().unwrap();
        let ghost after_one = players@;
        let player2 = players.pop().unwrap();
        proof {
            assert(after_one.push(player1) =~= shuffled);
            assert(players@.push(player2) =~= after_one);
        }
        Some((player1, player2))
    }
}

/// The wins that `events` report, as name and stars, in order.
pub open spec fn reported_wins(events: Seq<GameEvent>) -> Seq<(Seq<char>, usize)>
    decreases events.len(),
{
    if events.len() == 0 {
        Seq::empty()
    } else {
        let rest = reported_wins(events.drop_last());
        match events.last() {
            GameEvent::Won(name, star) => rest.push((name@, star)),
            _ => rest,
        }
    }
}

/// The names of the losers that `events` report, in order.
pub open spec fn reported_losses(events: Seq<GameEvent>) -> Seq<Seq<char>>
    decreases events.len(),
{
    if events.len() == 0 {
        Seq::empty()
    } else {
        let rest = reported_losses(events.drop_last());
        match events.last() {
            GameEvent::Won(_, _) => rest,
            GameEvent::NoOpponent(name) => rest.push(name@),
            GameEvent::Lost(name) => rest.push(name@),
        }
    }
}

/// Name and stars of a winner.
pub open spec fn win_entry(p: Player) -> (Seq<char>, usize) {
    (p.name@, p.star)
}

/// Name of a loser.
pub open spec fn loss_entry(p: Player) -> Seq<char> {
    p.name@
}

proof fn lemma_reported_push(events: Seq<GameEvent>, e: GameEvent)
    ensures
        reported_wins(events.push(e)) == match e {
            GameEvent::Won(name, star) => reported_wins(events).push((name@, star)),
            _ => reported_wins(events),
        },
        reported_losses(events.push(e)) == match e {
            GameEvent::Won(_, _) => reported_losses(events),
            GameEvent::NoOpponent(name) => reported_losses(events).push(name@),
            GameEvent::Lost(name) => reported_losses(events).push(name@),
        },
{
    assert(events.push(e).drop_last() =~= events);
}

/// Every card is rock, paper or scissors.
proof fn lemma_occurrences_sum(s: Seq<Card>)
    ensures
        occurrences(s, Card::Rock) + occurrences(s, Card::Paper) + occurrences(s, Card::Scissors) == s.len(),
    decreases s.len(),
{
    if s.len() > 0 {
        let init = s.drop_last();
        assert(s =~= init.push(s.last()));
        lemma_occurrences_sum(init);
    }
}

/// A choice by a strategy takes exactly the chosen card out of the hand.
proof fn lemma_choice_multiset(before: Seq<Card>, after: Seq<Card>, card: Card)
    requires
        crate::game::player::takes_one(before, after, card),
    ensures
        before.to_multiset() == after.to_multiset().insert(card),
{
    broadcast use vstd::multiset::group_multiset_axioms;
    let i = choose|i: int| 0 <= i < before.len() && before[i] == card && after == before.remove(i);
    assert(before.contains(card));
    assert(before.to_multiset().remove(card).insert(card) =~= before.to_multiset());
}

proof fn lemma_allows_takes_one(
    s: crate::game::player::Strategy,
    before: Seq<Card>,
    after: Seq<Card>,
    count: CardCount,
    card: Card,
)
    requires
        s.allows(before, after, count, card),
    ensures
        crate::game::player::takes_one(before, after, card),
{
}

/// A player still in the tournament holds cards and stars.
pub open spec fn in_play(p: Player) -> bool {
    p.cards.len() > 0 && p.star > 0
}

/// The invariants that hold of the players who wait and of those who left.
pub open spec fn sorted_groups(
    waiting: Seq<Player>,
    winners: Seq<Player>,
    losers: Seq<Player>,
    events: Seq<GameEvent>,
) -> bool {
    &&& forall|i: int| 0 <= i < waiting.len() ==> in_play(#[trigger] waiting[i])
    &&& forall|i: int| 0 <= i < winners.len() ==> #[trigger] winners[i].star >= TARGET_STARS
    &&& forall|i: int| 0 <= i < winners.len() ==> #[trigger] winners[i].cards.len() == 0
    &&& forall|i: int| 0 <= i < losers.len() ==> #[trigger] losers[i].cards.len() == 0
    &&& forall|i: int| 0 <= i < losers.len() ==> #[trigger] losers[i].star < TARGET_STARS
    &&& forall|i: int| 0 <= i < events.len() ==> !(#[trigger] events[i] is NoOpponent)
    &&& reported_wins(events) == winners.map_values(|p: Player| win_entry(p))
    &&& reported_losses(events) == losers.map_values(|p: Player| loss_entry(p))
}

/// The stars of the three groups together.
pub open spec fn stars_of_groups(waiting: Seq<Player>, winners: Seq<Player>, losers: Seq<Player>) -> int {
    total_stars(waiting) + total_stars(winners) + total_stars(losers)
}

/// The names of the three groups together.
pub open spec fn roster_of_groups(
    waiting: Seq<Player>,
    winners: Seq<Player>,
    losers: Seq<Player>,
) -> Multiset<Seq<char>> {
    roster(waiting).add(roster(winners)).add(roster(losers))
}

proof fn lemma_map_push(s: Seq<Player>, p: Player)
    ensures
        s.push(p).map_values(|q: Player| win_entry(q)) == s.map_values(|q: Player| win_entry(q)).push(win_entry(p)),
        s.push(p).map_values(|q: Player| loss_entry(q)) == s.map_values(|q: Player| loss_entry(q)).push(loss_entry(p)),
{
    assert(s.push(p).map_values(|q: Player| win_entry(q)) =~= s.map_values(|q: Player| win_entry(q)).push(win_entry(p)));
    assert(s.push(p).map_values(|q: Player| loss_entry(q)) =~= s.map_values(|q: Player| loss_entry(q)).push(loss_entry(p)));
}

/// The state of a tournament between two duels: the players who wait for a
/// duel, those who won and those who lost, what was reported, and the count of
/// the cards still in play.
pub struct Table {
    pub waiting: Seq<Player>,
    pub winners: Seq<Player>,
    pub losers: Seq<Player>,
    pub events: Seq<GameEvent>,
    pub count: CardCount,
}

/// The table made of the given groups and count.
pub open spec fn table_of(
    waiting: Seq<Player>,
    winners: Seq<Player>,
    losers: Seq<Player>,
    events: Seq<GameEvent>,
    count: CardCount,
) -> Table {
    Table { waiting, winners, losers, events, count }
}

/// The groups are those of table `t`.
pub open spec fn holds_table(
    waiting: Seq<Player>,
    winners: Seq<Player>,
    losers: Seq<Player>,
    events: Seq<GameEvent>,
    t: Table,
) -> bool {
    &&& waiting == t.waiting
    &&& winners == t.winners
    &&& losers == t.losers
    &&& events == t.events
}

/// Table `t` after player `p` left a duel: `p` waits again while it holds
/// cards and stars; otherwise it wins with at least `TARGET_STARS` stars and
/// loses with fewer, and the win or the loss is reported.
pub open spec fn sort_player(t: Table, p: Player) -> Table {
    if in_play(p) {
        Table { waiting: t.waiting.push(p), winners: t.winners, losers: t.losers, events: t.events, count: t.count }
    } else if p.star >= TARGET_STARS {
        Table {
            waiting: t.waiting,
            winners: t.winners.push(p),
            losers: t.losers,
            events: t.events.push(GameEvent::Won(p.name, p.star)),
            count: t.count,
        }
    } else {
        Table {
            waiting: t.waiting,
            winners: t.winners,
            losers: t.losers.push(p),
            events: t.events.push(GameEvent::Lost(p.name)),
            count: t.count,
        }
    }
}

/// `after` is `before` once the duel that ended as `result` is settled: the
/// returned cards leave the count, then the first and the second player are
/// sorted out.
pub open spec fn round_settled(before: Table, result: DuelResult, after: Table) -> bool {
    &&& holds_table(
        after.waiting,
        after.winners,
        after.losers,
        after.events,
        sort_player(sort_player(before, result.player1), result.player2),
    )
    &&& forall|c: Card|
        #[trigger] after.count.of(c) == before.count.of(c) - occurrences(result.returned_cards@, c)
}

/// Sorting a player out adds its stars and its name to the groups, its hand to
/// the pool when it waits again, and keeps what the groups promise when a
/// player that leaves holds no cards.
proof fn lemma_sort_player(t: Table, p: Player, s: Table)
    requires
        s == sort_player(t, p),
    ensures
        stars_of_groups(s.waiting, s.winners, s.losers) == stars_of_groups(t.waiting, t.winners, t.losers)
            + p.star,
        roster_of_groups(s.waiting, s.winners, s.losers) == roster_of_groups(t.waiting, t.winners, t.losers).insert(
            p.name@,
        ),
        in_play(p) ==> pooled_cards(s.waiting) == pooled_cards(t.waiting).add(p.cards@.to_multiset()),
        !in_play(p) ==> s.waiting == t.waiting,
        sorted_groups(t.waiting, t.winners, t.losers, t.events) && (!in_play(p) ==> p.cards.len() == 0)
            ==> sorted_groups(s.waiting, s.winners, s.losers, s.events),
{
    broadcast use vstd::multiset::group_multiset_axioms;
    lemma_push(t.waiting, p);
    lemma_push(t.winners, p);
    lemma_push(t.losers, p);
    lemma_map_push(t.winners, p);
    lemma_map_push(t.losers, p);
    lemma_reported_push(t.events, GameEvent::Won(p.name, p.star));
    lemma_reported_push(t.events, GameEvent::Lost(p.name));
    assert(roster_of_groups(s.waiting, s.winners, s.losers) =~= roster_of_groups(
        t.waiting,
        t.winners,
        t.losers,
    ).insert(p.name@));
    if sorted_groups(t.waiting, t.winners, t.losers, t.events) && (!in_play(p) ==> p.cards.len() == 0) {
        assert forall|i: int| 0 <= i < s.events.len() implies !(#[trigger] s.events[i] is NoOpponent) by {
            if i < t.events.len() {
                assert(s.events[i] == t.events[i]);
            }
        }
        assert forall|i: int| 0 <= i < s.losers.len() implies #[trigger] s.losers[i].star < TARGET_STARS by {
            if i < t.losers.len() {
                assert(s.losers[i] == t.losers[i]);
            }
        }
    }
}

impl Game {
    /// Sends a player back to wait for a duel while it holds cards and stars;
    /// otherwise the player wins with enough stars, and loses without.
    fn sort_out(
        player: Player,
        waiting: &mut Vec<Player>,
        winners: &mut Vec<Player>,
        losers: &mut Vec<Player>,
        events: &mut Vec<GameEvent>,
        Ghost(count): Ghost<CardCount>,
    )
        ensures
            holds_table(
                final(waiting)@,
                final(winners)@,
                final(losers)@,
                final(events)@,
                sort_player(table_of(old(waiting)@, old(winners)@, old(losers)@, old(events)@, count), player),
            ),
    {
        if player.cards.len() > 0 && player.star > 0 {
            waiting.push(player);
        } else if player.star >= TARGET_STARS {
            events.push(GameEvent::Won(player.name.clone(), player.star));
            winners.push(player);
        } else {
            events.push(GameEvent::Lost(player.name.clone()));
            losers.push(player);
        }
    }

    /// Settles the round after a duel that ended as `result`: the returned
    /// cards leave the count, and each of the two players waits again, wins or
    /// loses, the first player before the second.
    pub fn settle_round(
        result: DuelResult,
        waiting: &mut Vec<Player>,
        winners: &mut Vec<Player>,
        losers: &mut Vec<Player>,
        events: &mut Vec<GameEvent>,
        count: &mut CardCount,
    )
        requires
            forall|c: Card| occurrences(result.returned_cards@, c) <= #[trigger] old(count).of(c),
        ensures
            round_settled(
                table_of(old(waiting)@, old(winners)@, old(losers)@, old(events)@, *old(count)),
                result,
                table_of(final(waiting)@, final(winners)@, final(losers)@, final(events)@, *final(count)),
            ),
    {
        let ghost before = table_of(waiting@, winners@, losers@, events@, *count);
        let ghost res = result;
        let DuelResult { player1, player2, returned_cards, .. } = result;
        count.remove(returned_cards);
        let ghost c = *count;
        Self::sort_out(player1, waiting, winners, losers, events, Ghost(c));
        let ghost mid = table_of(waiting@, winners@, losers@, events@, c);
        Self::sort_out(player2, waiting, winners, losers, events, Ghost(c));
        proof {
            let s1 = sort_player(before, res.player1);
            assert(holds_table(mid.waiting, mid.winners, mid.losers, mid.events, s1));
            assert(holds_table(waiting@, winners@, losers@, events@, sort_player(s1, res.player2)));
        }
    }
}

/// A duel takes the two played cards out of the hands and puts back, beside the
/// hands, the returned cards: the pool of the waiting players shrinks by them.
proof fn lemma_duel_accounting(
    before: Seq<Player>,
    rest: Seq<Player>,
    p1: Player,
    p2: Player,
    q1: Player,
    q2: Player,
    c1: Card,
    c2: Card,
    r: DuelResult,
)
    requires
        before.to_multiset() == rest.push(p2).push(p1).to_multiset(),
        p1.cards@.to_multiset() == q1.cards@.to_multiset().insert(c1),
        p2.cards@.to_multiset() == q2.cards@.to_multiset().insert(c2),
        (q1.cards@ + q2.cards@ + seq![c1, c2]).to_multiset() == (r.player1.cards@ + r.player2.cards@
            + r.returned_cards@).to_multiset(),
    ensures
        forall|c: Card| #[trigger] occurrences(r.returned_cards@, c) <= pooled_cards(before).count(c),
        forall|c: Card|
            pooled_cards(before).count(c) - #[trigger] occurrences(r.returned_cards@, c) == pooled_cards(rest).count(c)
                + r.player1.cards@.to_multiset().count(c) + r.player2.cards@.to_multiset().count(c),
{
    broadcast use vstd::multiset::group_multiset_axioms;
    lemma_permuted(before, rest.push(p2).push(p1));
    lemma_push(rest, p2);
    lemma_push(rest.push(p2), p1);
    let (a, b, t) = (q1.cards@, q2.cards@, seq![c1, c2]);
    let (x, y, z) = (r.player1.cards@, r.player2.cards@, r.returned_cards@);
    lemma_multiset_commutative(a + b, t);
    lemma_multiset_commutative(a, b);
    lemma_multiset_commutative(x + y, z);
    lemma_multiset_commutative(x, y);
    assert(t =~= seq![c1].push(c2));
    assert(seq![c1] =~= Seq::<Card>::empty().push(c1));
    assert forall|c: Card| #[trigger] occurrences(z, c) <= pooled_cards(before).count(c) by {
        assert((a + b + t).to_multiset().count(c) == (x + y + z).to_multiset().count(c));
    }
    assert forall|c: Card|
        pooled_cards(before).count(c) - #[trigger] occurrences(z, c) == pooled_cards(rest).count(c)
            + x.to_multiset().count(c) + y.to_multiset().count(c) by {
        assert((a + b + t).to_multiset().count(c) == (x + y + z).to_multiset().count(c));
    }
}

proof fn lemma_occurrences_push(s: Seq<Card>, x: Card)
    ensures
        forall|c: Card| #[trigger] occurrences(s.push(x), c) == occurrences(s, c) + (if x == c { 1int } else { 0int }),
{
    broadcast use vstd::multiset::group_multiset_axioms;
}

/// The hand that every player starts with: rock, paper and scissors, four times over.
fn starting_cards() -> (cards: Vec<Card>)
    ensures
        starting_hand(cards@),
        cards.len() == 3 * CARDS_PER_KIND,
{
    let mut initial_cards: Vec<Card> = Vec::new();
    for k in 0..CARDS_PER_KIND
        invariant
            initial_cards.len() == 3 * k,
            forall|c: Card| #[trigger] occurrences(initial_cards@, c) == k,
    {
        proof {
            let s0 = initial_cards@;
            lemma_occurrences_push(s0, Card::Rock);
            lemma_occurrences_push(s0.push(Card::Rock), Card::Paper);
            lemma_occurrences_push(s0.push(Card::Rock).push(Card::Paper), Card::Scissors);
        }
        initial_cards.push(Card::Rock);
        initial_cards.push(Card::Paper);
        initial_cards.push(Card::Scissors);
    }
    initial_cards
}

impl Game {
    /// Plays the tournament to its end. Every player starts with three stars
    /// and a hand of four cards of each kind. While cards are in play and two
    /// players wait, two of them drawn at random duel, each playing a card
    /// chosen by its own strategy; a player who runs out of cards or stars
    /// leaves, winning with at least five stars and losing otherwise. A player
    /// left alone while cards are in play loses for want of an opponent. The
    /// stars of all players together never change.
    pub fn play(self) -> (report: GameReport)
        requires
            self.players.len() * (3 * CARDS_PER_KIND) <= usize::MAX,
        ensures
            exists|trace: Seq<Table>|
                #[trigger] tournament_run(self.players@, trace, report.winners@, report.losers@, report.events@),
            total_stars(report.winners@) + total_stars(report.losers@) == START_STARS * self.players.len(),
            roster(report.winners@).add(roster(report.losers@)) == roster(self.players@),
            forall|i: int| 0 <= i < report.winners.len() ==> #[trigger] report.winners@[i].star >= TARGET_STARS,
            forall|i: int| 0 <= i < report.winners.len() ==> #[trigger] report.winners@[i].cards.len() == 0,
            forall|i: int| 0 <= i < report.losers.len() ==> #[trigger] report.losers@[i].cards.len() == 0,
            forall|i: int|
                0 <= i < report.losers.len() ==> #[trigger] report.losers@[i].star < TARGET_STARS || (i
                    == report.losers.len() - 1 && report.events@.last() is NoOpponent),
            forall|i: int| 0 <= i < report.events.len() - 1 ==> !(#[trigger] report.events@[i] is NoOpponent),
            reported_wins(report.events@) == report.winners@.map_values(|p: Player| win_entry(p)),
            reported_losses(report.events@) == report.losers@.map_values(|p: Player| loss_entry(p)),
    {
        let ghost initial = self.players@;
        let total_player = self.players.len();
        let mut players = self.players;
        assert(CARDS_PER_KIND * total_player <= usize::MAX) by (nonlinear_arith)
            requires
                total_player * (3 * CARDS_PER_KIND) <= usize::MAX,
        ;

        // Every player gets its starting stars and hand.
        let mut waiting_players: Vec<Player> = Vec::new();
        while players.len() > 0
            invariant
                total_player == initial.len(),
                waiting_players.len() + players.len() == total_player,
                players@ == initial.skip(waiting_players.len() as int),
                roster(waiting_players@) == roster(initial.take(waiting_players.len() as int)),
                total_stars(waiting_players@) == START_STARS * waiting_players.len(),
                forall|c: Card| #[trigger] pooled_cards(waiting_players@).count(c) == CARDS_PER_KIND * waiting_players.len(),
                forall|i: int| 0 <= i < waiting_players.len() ==> in_play(#[trigger] waiting_players@[i]),
                forall|i: int| 0 <= i < waiting_players.len() ==> dealt_player(initial[i], #[trigger] waiting_players@[i]),
            decreases players.len(),
        {
            let ghost k = waiting_players.len() as int;
            let mut player = players.remove(0);
            proof {
                assert(initial.skip(k)[0] == initial[k]);
                assert(initial.skip(k).remove(0) =~= initial.skip(k + 1));
                assert(initial.take(k + 1) =~= initial.take(k).push(initial[k]));
                lemma_push(initial.take(k), initial[k]);
            }
            player.init(START_STARS, starting_cards());
            proof {
                broadcast use vstd::multiset::group_multiset_axioms;
                lemma_push(waiting_players@, player);
                assert forall|c: Card| #[trigger] pooled_cards(waiting_players@.push(player)).count(c)
                    == CARDS_PER_KIND * (k + 1) by {
                    assert(occurrences(player.cards@, c) == CARDS_PER_KIND);
                }
            }
            waiting_players.push(player);
        }
        proof {
            assert(initial.take(total_player as int) =~= initial);
        }

        let mut playable_card_count = CardCount::new(CARDS_PER_KIND * total_player);
        let mut winners: Vec<Player> = Vec::new();
        let mut losers: Vec<Player> = Vec::new();
        let mut events: Vec<GameEvent> = Vec::new();
        let ghost mut trace: Seq<Table> = seq![table_of(waiting_players@, winners@, losers@, events@, playable_card_count)];
        proof {
            lemma_empty(winners@);
            lemma_empty(losers@);
            assert(roster_of_groups(waiting_players@, winners@, losers@) =~= roster(initial));
            assert(reported_wins(events@) =~= winners@.map_values(|p: Player| win_entry(p)));
            assert(reported_losses(events@) =~= losers@.map_values(|p: Player| loss_entry(p)));
            assert(dealt(initial, trace[0]));
        }

        // Duels go on while cards are in play and two players wait.
        loop
            invariant
                tournament_inv(waiting_players@, winners@, losers@, events@, playable_card_count, initial, total_player),
                trace.len() > 0,
                dealt(initial, trace[0]),
                forall|i: int| 0 <= i < trace.len() - 1 ==> #[trigger] step_holds(trace, i),
                trace.last() == table_of(waiting_players@, winners@, losers@, events@, playable_card_count),
            ensures
                waiting_players.len() < 2 || playable_card_count.sum() == 0,
                playable_card_count.sum() == 0 ==> waiting_players.len() == 0,
            decreases playable_card_count.sum(),
        {
            proof {
                assert(playable_card_count.of(Card::Rock) <= CARDS_PER_KIND * total_player);
                assert(playable_card_count.of(Card::Paper) <= CARDS_PER_KIND * total_player);
                assert(playable_card_count.of(Card::Scissors) <= CARDS_PER_KIND * total_player);
                let ghost (r, pa, sc) = (playable_card_count.rock as int, playable_card_count.paper as int, playable_card_count.scissors as int);
                let ghost n = total_player as int;
                assert(r + pa + sc <= n * 12) by (nonlinear_arith)
                    requires
                        r <= 4 * n,
                        pa <= 4 * n,
                        sc <= 4 * n,
                ;
            }
            if playable_card_count.total() == 0 {
                proof {
                    if waiting_players.len() > 0 {
                        let p = waiting_players@[0];
                        assert(in_play(p));
                        let c = p.cards@[0];
                        assert(p.cards@.contains(c));
                        lemma_member_bounded(waiting_players@, 0);
                        assert(playable_card_count.of(c) >= 1);
                    }
                }
                break;
            }
            if waiting_players.len() < 2 {
                break;
            }
            let ghost t0 = trace.last();
            Self::duel_round(
                &mut waiting_players,
                &mut winners,
                &mut losers,
                &mut events,
                &mut playable_card_count,
                Ghost(initial),
                total_player,
            );
            proof {
                let t1 = table_of(waiting_players@, winners@, losers@, events@, playable_card_count);
                let earlier = trace;
                trace = trace.push(t1);
                assert forall|i: int| 0 <= i < trace.len() - 1 implies #[trigger] step_holds(trace, i) by {
                    if i < earlier.len() - 1 {
                        assert(step_holds(earlier, i));
                        assert(trace[i] == earlier[i]);
                        assert(trace[i + 1] == earlier[i + 1]);
                    } else {
                        assert(trace[i] == t0);
                        assert(trace[i + 1] == t1);
                    }
                }
            }
        }

        // A player left alone while cards are in play loses for want of an opponent.
        let ghost last = trace.last();
        if let Some(mut player) = waiting_players.pop() {
            let ghost p0 = player;
            proof {
                assert(waiting_players@.len() == 0);
                lemma_empty(waiting_players@);
                assert(last.waiting =~= waiting_players@.push(p0));
                lemma_push(waiting_players@, p0);
                assert(in_play(p0));
                assert(last.waiting[0] == p0);
            }
            let remaining_cards = player.take_remaining_cards();
            proof {
                assert forall|c: Card| occurrences(remaining_cards@, c) <= #[trigger] playable_card_count.of(c) by {
                    broadcast use vstd::multiset::group_multiset_axioms;
                }
            }
            playable_card_count.remove(remaining_cards);
            let ghost lo0 = losers@;
            let ghost ev0 = events@;
            events.push(GameEvent::NoOpponent(player.name.clone()));
            losers.push(player);
            proof {
                broadcast use vstd::multiset::group_multiset_axioms;
                lemma_push(lo0, player);
                lemma_map_push(lo0, player);
                lemma_reported_push(ev0, GameEvent::NoOpponent(player.name));
                assert(roster_of_groups(waiting_players@, winners@, losers@) =~= roster_of_groups(
                    last.waiting,
                    winners@,
                    lo0,
                ));
                assert(losers@.drop_last() =~= lo0);
                assert forall|i: int| 0 <= i < events@.len() - 1 implies !(#[trigger] events@[i] is NoOpponent) by {
                    assert(events@[i] == ev0[i]);
                }
                assert forall|i: int|
                    0 <= i < losers@.len() implies #[trigger] losers@[i].star < TARGET_STARS || (i == losers@.len() - 1
                        && events@.last() is NoOpponent) by {
                    if i < lo0.len() {
                        assert(losers@[i] == lo0[i]);
                    }
                }
            }
        }
        proof {
            lemma_nonnegative(waiting_players@);
            if waiting_players.len() == 0 {
                lemma_empty(waiting_players@);
                assert(roster_of_groups(waiting_players@, winners@, losers@) =~= roster(winners@).add(roster(losers@)));
            }
            assert(ends_tournament(last, winners@, losers@, events@));
            assert(tournament_run(initial, trace, winners@, losers@, events@));
        }

        GameReport { winners, losers, events }
    }
}

/// The invariant of the tournament loop: the count matches the cards in the
/// hands of the waiting players, the stars of all players add up to the
/// stars they started with, every player is in exactly one group, and the
/// groups hold what their names say.
pub open spec fn tournament_inv(
    waiting: Seq<Player>,
    winners: Seq<Player>,
    losers: Seq<Player>,
    events: Seq<GameEvent>,
    count: CardCount,
    initial: Seq<Player>,
    total_player: usize,
) -> bool {
    &&& total_player == initial.len()
    &&& total_player * (3 * CARDS_PER_KIND) <= usize::MAX
    &&& forall|c: Card| #[trigger] count.of(c) == pooled_cards(waiting).count(c)
    &&& forall|c: Card| #[trigger] count.of(c) <= CARDS_PER_KIND * total_player
    &&& stars_of_groups(waiting, winners, losers) == START_STARS * total_player
    &&& roster_of_groups(waiting, winners, losers) == roster(initial)
    &&& sorted_groups(waiting, winners, losers, events)
}

/// `q` is `p` after choosing card `c` by its own strategy, with `count` the
/// cards still in play.
pub open spec fn chooses_card(p: Player, q: Player, count: CardCount, c: Card) -> bool {
    &&& q.name == p.name
    &&& q.strategy == p.strategy
    &&& q.star == p.star
    &&& p.cards.len() > 0
    &&& p.strategy.allows(p.cards@, q.cards@, count, c)
}

/// `after` follows `before` by the duel in which `p1` and `p2`, drawn from the
/// waiting players with `rest` left waiting, chose `c1` and `c2` and became
/// `q1` and `q2`, the duel ended as `r`, and the round was settled.
pub open spec fn duel_of(
    before: Table,
    after: Table,
    rest: Seq<Player>,
    p1: Player,
    p2: Player,
    q1: Player,
    q2: Player,
    c1: Card,
    c2: Card,
    r: DuelResult,
) -> bool {
    &&& before.waiting.to_multiset() == rest.push(p2).push(p1).to_multiset()
    &&& chooses_card(p1, q1, before.count, c1)
    &&& chooses_card(p2, q2, before.count, c2)
    &&& settles(q1, q2, c1, c2, r)
    &&& round_settled(table_of(rest, before.winners, before.losers, before.events, before.count), r, after)
}

/// `after` follows `before` by one duel between two of its waiting players,
/// fought while cards are in play.
pub open spec fn duel_step(before: Table, after: Table) -> bool {
    &&& before.waiting.len() >= 2
    &&& before.count.sum() > 0
    &&& exists|rest: Seq<Player>, p1: Player, p2: Player, q1: Player, q2: Player, c1: Card, c2: Card, r: DuelResult|
        #[trigger] duel_of(before, after, rest, p1, p2, q1, q2, c1, c2, r)
}

/// The table at `i + 1` follows the table at `i` by one duel.
pub open spec fn step_holds(trace: Seq<Table>, i: int) -> bool {
    duel_step(trace[i], trace[i + 1])
}

/// `q` is `p` dealt its starting stars and hand.
pub open spec fn dealt_player(p: Player, q: Player) -> bool {
    &&& q.name == p.name
    &&& q.strategy == p.strategy
    &&& q.star == START_STARS
    &&& starting_hand(q.cards@)
}

/// `t` is the table at the start of a tournament of `players`: all of them wait,
/// in their order, each dealt its starting stars and hand, nobody has left yet,
/// and every card of every hand is in play.
pub open spec fn dealt(players: Seq<Player>, t: Table) -> bool {
    &&& t.waiting.len() == players.len()
    &&& forall|i: int| 0 <= i < players.len() ==> dealt_player(players[i], #[trigger] t.waiting[i])
    &&& t.winners.len() == 0
    &&& t.losers.len() == 0
    &&& t.events.len() == 0
    &&& forall|c: Card| #[trigger] t.count.of(c) == CARDS_PER_KIND * players.len()
}

/// `q` is `p` without its hand.
pub open spec fn emptied(p: Player, q: Player) -> bool {
    &&& q.name == p.name
    &&& q.strategy == p.strategy
    &&& q.star == p.star
    &&& q.cards@ == Seq::<Card>::empty()
}

/// The tournament stops at table `t` and reports `winners`, `losers` and
/// `events`: it stops when no cards are in play or fewer than two players wait;
/// a single player left waiting while cards are in play gives up its hand and
/// loses for want of an opponent.
pub open spec fn ends_tournament(
    t: Table,
    winners: Seq<Player>,
    losers: Seq<Player>,
    events: Seq<GameEvent>,
) -> bool {
    &&& t.waiting.len() < 2 || t.count.sum() == 0
    &&& winners == t.winners
    &&& if t.count.sum() > 0 && t.waiting.len() == 1 {
        &&& losers.len() == t.losers.len() + 1
        &&& losers.drop_last() == t.losers
        &&& emptied(t.waiting[0], losers.last())
        &&& events == t.events.push(GameEvent::NoOpponent(t.waiting[0].name))
    } else {
        losers == t.losers && events == t.events
    }
}

/// A whole tournament of `players`: it starts from the dealt table, goes from
/// table to table by one duel at a time, and stops at the last table with the
/// given report.
pub open spec fn tournament_run(
    players: Seq<Player>,
    trace: Seq<Table>,
    winners: Seq<Player>,
    losers: Seq<Player>,
    events: Seq<GameEvent>,
) -> bool {
    &&& trace.len() > 0
    &&& dealt(players, trace[0])
    &&& forall|i: int| 0 <= i < trace.len() - 1 ==> #[trigger] step_holds(trace, i)
    &&& ends_tournament(trace.last(), winners, losers, events)
}

/// What a settled round does to the groups: the stars, the names and, for a
/// player who waits again, the hand of each of the two players join them, and
/// the count loses the returned cards.
proof fn lemma_settled_round(mid: Table, res: DuelResult, after: Table)
    requires
        round_settled(mid, res, after),
        sorted_groups(mid.waiting, mid.winners, mid.losers, mid.events),
        !in_play(res.player1) ==> res.player1.cards.len() == 0,
        !in_play(res.player2) ==> res.player2.cards.len() == 0,
    ensures
        stars_of_groups(after.waiting, after.winners, after.losers) == stars_of_groups(
            mid.waiting,
            mid.winners,
            mid.losers,
        ) + res.player1.star + res.player2.star,
        roster_of_groups(after.waiting, after.winners, after.losers) == roster_of_groups(
            mid.waiting,
            mid.winners,
            mid.losers,
        ).insert(res.player1.name@).insert(res.player2.name@),
        pooled_cards(after.waiting) == pooled_cards(mid.waiting).add(res.player1.cards@.to_multiset()).add(
            res.player2.cards@.to_multiset(),
        ),
        sorted_groups(after.waiting, after.winners, after.losers, after.events),
        forall|c: Card| #[trigger] after.count.of(c) == mid.count.of(c) - occurrences(res.returned_cards@, c),
        after.count.sum() == mid.count.sum() - res.returned_cards@.len(),
{
    broadcast use vstd::multiset::group_multiset_axioms;
    let s1 = sort_player(mid, res.player1);
    let s2 = sort_player(s1, res.player2);
    lemma_sort_player(mid, res.player1, s1);
    lemma_sort_player(s1, res.player2, s2);
    if !in_play(res.player1) {
        assert(res.player1.cards@.to_multiset() =~= Multiset::<Card>::empty());
    }
    if !in_play(res.player2) {
        assert(res.player2.cards@.to_multiset() =~= Multiset::<Card>::empty());
    }
    assert(pooled_cards(after.waiting) =~= pooled_cards(mid.waiting).add(res.player1.cards@.to_multiset()).add(
        res.player2.cards@.to_multiset(),
    ));
    lemma_remove_total(mid.count, after.count, res.returned_cards@);
}

impl Game {
    /// One duel of the tournament: two waiting players drawn at random play a
    /// card each, the duel is settled, and so is the round.
    fn duel_round(
        waiting: &mut Vec<Player>,
        winners: &mut Vec<Player>,
        losers: &mut Vec<Player>,
        events: &mut Vec<GameEvent>,
        count: &mut CardCount,
        Ghost(initial): Ghost<Seq<Player>>,
        total_player: usize,
    )
        requires
            old(waiting).len() >= 2,
            old(count).sum() > 0,
            tournament_inv(old(waiting)@, old(winners)@, old(losers)@, old(events)@, *old(count), initial, total_player),
        ensures
            tournament_inv(final(waiting)@, final(winners)@, final(losers)@, final(events)@, *final(count), initial, total_player),
            final(count).sum() < old(count).sum(),
            duel_step(
                table_of(old(waiting)@, old(winners)@, old(losers)@, old(events)@, *old(count)),
                table_of(final(waiting)@, final(winners)@, final(losers)@, final(events)@, *final(count)),
            ),
    {
        let ghost before = table_of(waiting@, winners@, losers@, events@, *count);
        let ghost before_waiting = waiting@;
        let ghost before_count = *count;
        if let Some((player1, player2)) = Self::matchmaking(waiting) {
            let ghost rest = waiting@;
            let mut player1 = player1;
            let mut player2 = player2;
            let ghost p1 = player1;
            let ghost p2 = player2;
            let ghost all = rest.push(player2).push(player1);
            proof {
                lemma_permuted(before_waiting, all);
                lemma_push(rest, player2);
                lemma_push(rest.push(player2), player1);
                lemma_nonnegative(winners@);
                lemma_nonnegative(losers@);
                lemma_nonnegative(rest);
                assert(all[all.len() - 1] == p1);
                assert(all[all.len() - 2] == p2);
                lemma_member_bounded(all, all.len() - 1);
                lemma_member_bounded(all, all.len() - 2);
                assert(before_waiting.to_multiset().count(p1) > 0);
                assert(before_waiting.to_multiset().count(p2) > 0);
                assert(before_waiting.contains(p1));
                assert(before_waiting.contains(p2));
                assert(in_play(p1) && in_play(p2));
                assert(START_STARS * total_player < usize::MAX) by (nonlinear_arith)
                    requires
                        total_player * (3 * CARDS_PER_KIND) <= usize::MAX,
                ;
            }
            let card1 = player1.set_card_to_play(count);
            let card2 = player2.set_card_to_play(count);
            proof {
                lemma_allows_takes_one(p1.strategy, p1.cards@, player1.cards@, before_count, card1);
                lemma_allows_takes_one(p2.strategy, p2.cards@, player2.cards@, before_count, card2);
                lemma_choice_multiset(p1.cards@, player1.cards@, card1);
                lemma_choice_multiset(p2.cards@, player2.cards@, card2);
            }
            let ghost q1 = player1;
            let ghost q2 = player2;
            let result = settle(player1, player2, Availability::Available(card1), Availability::Available(card2));
            let ghost res = result;
            proof {
                lemma_settle_conserves(q1, q2, card1, card2, result);
                lemma_duel_accounting(before_waiting, rest, p1, p2, q1, q2, card1, card2, result);
                lemma_occurrences_sum(result.returned_cards@);
            }
            let ghost returned = result.returned_cards@;
            let ghost mid = table_of(rest, winners@, losers@, events@, before_count);
            proof {
                broadcast use vstd::multiset::group_multiset_axioms;
                assert(sorted_groups(rest, winners@, losers@, events@)) by {
                    assert forall|i: int| 0 <= i < rest.len() implies in_play(#[trigger] rest[i]) by {
                        assert(all[i] == rest[i]);
                        assert(all.contains(rest[i]));
                        assert(all.to_multiset().count(rest[i]) > 0);
                        assert(before_waiting.contains(rest[i]));
                    }
                }
                assert(roster(all) == roster(before_waiting));
                assert(res.player1.name == p1.name && res.player2.name == p2.name);
                assert(roster_of_groups(rest, winners@, losers@).insert(p2.name@).insert(p1.name@)
                    =~= roster_of_groups(all, winners@, losers@));
            }
            Self::settle_round(result, waiting, winners, losers, events, count);
            proof {
                broadcast use vstd::multiset::group_multiset_axioms;
                let after = table_of(waiting@, winners@, losers@, events@, *count);
                lemma_settled_round(mid, res, after);
                assert forall|c: Card| #[trigger] count.of(c) == pooled_cards(waiting@).count(c) by {
                    assert(count.of(c) == before_count.of(c) - occurrences(returned, c));
                }
                assert(roster_of_groups(waiting@, winners@, losers@) =~= roster(initial));
                assert(duel_of(before, after, rest, p1, p2, q1, q2, card1, card2, res));
                assert(count.sum() < before_count.sum());
            }
        }
    }
}

/// Taking cards out of a count lowers its total by the number of cards taken.
pub proof fn lemma_remove_total(before: CardCount, after: CardCount, cards: Seq<Card>)
    requires
        forall|c: Card| #[trigger] after.of(c) == before.of(c) - occurrences(cards, c),
    ensures
        after.sum() == before.sum() - cards.len(),
{
    lemma_occurrences_sum(cards);
    assert(after.of(Card::Rock) == before.of(Card::Rock) - occurrences(cards, Card::Rock));
    assert(after.of(Card::Paper) == before.of(Card::Paper) - occurrences(cards, Card::Paper));
    assert(after.of(Card::Scissors) == before.of(Card::Scissors) - occurrences(cards, Card::Scissors));
}

} // verus!
