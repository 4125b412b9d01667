//! A duel between two players: each plays a card, the better card wins a star.

use vstd::prelude::*;
use vstd::seq_lib::lemma_multiset_commutative;
use std::time::Instant;
use crate::game::CardCount;
use crate::game::card::{Card, PlayResult, outcome, opposite};
use crate::game::player::{Availability, Player, RandomStrategy, Strategy};

verus! {

#[verifier::external_type_specification]
#[verifier::external_body]
pub struct ExInstant(Instant);

/// Whether the current time, read with `Instant::now()`, is before `deadline`.
/// The answer depends on the clock, so nothing is claimed of it.
#[verifier::external_body]
fn before_deadline(deadline: &Instant) -> (r: bool) {
    Instant::now() < *deadline
}

/// A duel in progress.
pub struct Duel {
    pub player1: Player,
    pub player2: Player,
    pub player1_card: Availability<Card>,
    pub player2_card: Availability<Card>,
    pub timeout_at: Instant,
}

/// How a duel ended.
pub struct DuelResult {
    pub player1: Player,
    pub player2: Player,
    pub returned_cards: Vec<Card>,
    pub player1_card: Availability<Card>,
    pub player2_card: Availability<Card>,
    pub player1_result: PlayResult,
    pub player2_result: PlayResult,
}

/// A duel either waits for cards or has ended.
pub enum DuelStatus {
    Waiting(Duel),
    Finished(DuelResult),
}

/// `after` is `before` with one more star.
pub open spec fn gains_star(before: Player, after: Player) -> bool {
    &&& after.name == before.name
    &&& after.strategy == before.strategy
    &&& after.star == before.star + 1
    &&& after.cards@ == before.cards@
}

/// The hand that a player gives up on losing a duel: all of it on losing the
/// last star, nothing otherwise.
pub open spec fn disposed_on_loss(p: Player) -> Seq<Card> {
    if p.star == 1 {
        p.cards@
    } else {
        Seq::empty()
    }
}

/// `after` is `before` with one star less, and without cards when no star is left.
pub open spec fn loses_star(before: Player, after: Player) -> bool {
    &&& after.name == before.name
    &&& after.strategy == before.strategy
    &&& after.star == before.star - 1
    &&& after.cards@ == (if before.star == 1 { Seq::empty() } else { before.cards@ })
}

/// `after` is `before` unchanged.
pub open spec fn unchanged(before: Player, after: Player) -> bool {
    &&& after.name == before.name
    &&& after.strategy == before.strategy
    &&& after.star == before.star
    &&& after.cards@ == before.cards@
}

/// A player whose card was `before_card` ends, by choosing with `strategy`
/// when no card was chosen yet, as `after` with `after_card`.
pub open spec fn chooses(
    before: Player,
    before_card: Availability<Card>,
    after: Player,
    after_card: Availability<Card>,
    count: CardCount,
    strategy: Strategy,
) -> bool {
    &&& after.name == before.name
    &&& after.strategy == before.strategy
    &&& after.star == before.star
    &&& match before_card {
        Availability::Available(c) => after_card == before_card && after.cards@ == before.cards@,
        Availability::Waiting => match after_card {
            Availability::Available(c) => before.cards.len() > 0 && strategy.allows(
                before.cards@,
                after.cards@,
                count,
                c,
            ),
            Availability::Waiting => before.cards.len() == 0 && after.cards@ == before.cards@,
        },
    }
}

/// Both cards are chosen.
pub open spec fn both_chosen(a: Availability<Card>, b: Availability<Card>) -> bool {
    a is Available && b is Available
}

/// `r` is the end of a duel in which `p1` played `c1` against `c2` of `p2`:
/// the winner gains a star, the loser loses one, and the played cards come
/// back together with the hand of a loser left without stars.
pub open spec fn settles(p1: Player, p2: Player, c1: Card, c2: Card, r: DuelResult) -> bool {
    &&& r.player1_card == Availability::Available(c1)
    &&& r.player2_card == Availability::Available(c2)
    &&& r.player1_result == outcome(c1, c2)
    &&& r.player2_result == opposite(outcome(c1, c2))
    &&& match outcome(c1, c2) {
        PlayResult::Win => gains_star(p1, r.player1) && loses_star(p2, r.player2)
            && r.returned_cards@ == seq![c1, c2] + disposed_on_loss(p2),
        PlayResult::Lose => loses_star(p1, r.player1) && gains_star(p2, r.player2)
            && r.returned_cards@ == seq![c1, c2] + disposed_on_loss(p1),
        PlayResult::Draw => unchanged(p1, r.player1) && unchanged(p2, r.player2)
            && r.returned_cards@ == seq![c1, c2],
    }
}

/// `r` ends a duel in which not both cards could be chosen: nobody wins, and
/// no card comes back.
pub open spec fn abandons(
    p1: Player,
    p2: Player,
    a1: Availability<Card>,
    a2: Availability<Card>,
    r: DuelResult,
) -> bool {
    &&& unchanged(p1, r.player1)
    &&& unchanged(p2, r.player2)
    &&& r.player1_card == a1
    &&& r.player2_card == a2
    &&& r.player1_result == PlayResult::Draw
    &&& r.player2_result == PlayResult::Draw
    &&& r.returned_cards@ == Seq::<Card>::empty()
}

/// `r` ends the duel of `p1` with card `a1` and `p2` with card `a2`.
pub open spec fn ends(
    p1: Player,
    p2: Player,
    a1: Availability<Card>,
    a2: Availability<Card>,
    r: DuelResult,
) -> bool {
    match (a1, a2) {
        (Availability::Available(c1), Availability::Available(c2)) => settles(p1, p2, c1, c2, r),
        _ => abandons(p1, p2, a1, a2, r),
    }
}

/// A player who may still play a card can lose or win a star.
pub open spec fn ready_to_duel(p: Player, a: Availability<Card>) -> bool {
    (a is Available || p.cards.len() > 0) ==> 0 < p.star < usize::MAX
}

impl Duel {
    /// A duel in which neither player has chosen a card yet.
    pub fn new(player1: Player, player2: Player, timeout_at: Instant) -> (r: Duel)
        ensures
            r.player1 == player1,
            r.player2 == player2,
            r.player1_card is Waiting,
            r.player2_card is Waiting,
            r.timeout_at == timeout_at,
    {
        Duel {
            player1,
            player2,
            player1_card: Availability::Waiting,
            player2_card: Availability::Waiting,
            timeout_at,
        }
    }

    /// Plays one step of the duel. Players who have not chosen a card yet
    /// choose one by their own strategy; then the clock is read and the duel
    /// goes on as `settle_or_wait` says for that reading: settled when both
    /// cards are chosen, waiting while the deadline is ahead, and otherwise
    /// ended after the missing cards are chosen at random.
    pub fn play(self, playable_card_count: &CardCount) -> (r: DuelStatus)
        requires
            ready_to_duel(self.player1, self.player1_card),
            ready_to_duel(self.player2, self.player2_card),
        ensures
            exists|mid: Duel, deadline_passed: bool|
                round(self, mid, *playable_card_count, None)
                    && #[trigger] settles_or_waits(mid, *playable_card_count, deadline_passed, r),
    {
        let ghost start = self;
        let mut duel = self;
        duel.choose_missing(playable_card_count, None);
        let ghost mid = duel;
        proof {
            lemma_round_keeps_ready(start, mid, *playable_card_count, None);
        }
        let deadline_passed = !before_deadline(&duel.timeout_at);
        let r = duel.settle_or_wait(playable_card_count, deadline_passed);
        assert(settles_or_waits(mid, *playable_card_count, deadline_passed, r));
        r
    }

    /// Goes on with a duel after its players have had their own choice, given
    /// whether its deadline has passed: when both cards are chosen the duel is
    /// settled; otherwise it waits while the deadline is ahead, and once the
    /// deadline has passed the missing cards are chosen at random and the duel
    /// ends, settled if both cards could be chosen and abandoned if not.
    pub fn settle_or_wait(self, playable_card_count: &CardCount, deadline_passed: bool) -> (r: DuelStatus)
        requires
            ready_to_duel(self.player1, self.player1_card),
            ready_to_duel(self.player2, self.player2_card),
        ensures
            both_chosen(self.player1_card, self.player2_card) ==> (r matches DuelStatus::Finished(res)
                && ends_duel(self, res)),
            !both_chosen(self.player1_card, self.player2_card) && !deadline_passed ==> (r matches DuelStatus::Waiting(d)
                && d == self),
            !both_chosen(self.player1_card, self.player2_card) && deadline_passed ==> (r matches DuelStatus::Finished(res)
                && exists|last: Duel|
                #[trigger] round(self, last, *playable_card_count, Some(Strategy::Random(RandomStrategy)))
                    && ends_duel(last, res)),
    {
        if let (Availability::Available(_), Availability::Available(_)) = (&self.player1_card, &self.player2_card) {
            return DuelStatus::Finished(self.finish());
        }
        if !deadline_passed {
            return DuelStatus::Waiting(self);
        }
        let ghost start = self;
        let mut duel = self;
        let random = Strategy::Random(RandomStrategy);
        duel.choose_missing(playable_card_count, Some(random));
        proof {
            lemma_round_keeps_ready(start, duel, *playable_card_count, Some(random));
            assert(round(start, duel, *playable_card_count, Some(random)));
        }
        DuelStatus::Finished(duel.finish())
    }

    /// Lets each player without a chosen card choose one by `strategy`, or by
    /// its own strategy when `strategy` is `None`.
    fn choose_missing(&mut self, playable_card_count: &CardCount, strategy: Option<Strategy>)
        ensures
            final(self).timeout_at == old(self).timeout_at,
            chooses(old(self).player1, old(self).player1_card, final(self).player1,
                final(self).player1_card, *playable_card_count,
                match strategy { Some(s) => s, None => old(self).player1.strategy }),
            chooses(old(self).player2, old(self).player2_card, final(self).player2,
                final(self).player2_card, *playable_card_count,
                match strategy { Some(s) => s, None => old(self).player2.strategy }),
    {
        if let Availability::Waiting = self.player1_card {
            let own = self.player1.strategy;
            if let Some(s) = strategy {
                self.player1.strategy = s;
            }
            self.player1_card = self.player1.try_choose_card(playable_card_count);
            self.player1.strategy = own;
        }
        if let Availability::Waiting = self.player2_card {
            let own = self.player2.strategy;
            if let Some(s) = strategy {
                self.player2.strategy = s;
            }
            self.player2_card = self.player2.try_choose_card(playable_card_count);
            self.player2.strategy = own;
        }
    }

    /// Ends the duel with the cards chosen so far.
    fn finish(self) -> (r: DuelResult)
        requires
            ready_to_duel(self.player1, self.player1_card),
            ready_to_duel(self.player2, self.player2_card),
        ensures
            ends(self.player1, self.player2, self.player1_card, self.player2_card, r),
    {
        settle(self.player1, self.player2, self.player1_card, self.player2_card)
    }
}

/// Ends the duel of `player1` with `player1_card` against `player2` with
/// `player2_card`: settled when both cards are chosen, abandoned otherwise.
pub(crate) fn settle(
    player1: Player,
    player2: Player,
    player1_card: Availability<Card>,
    player2_card: Availability<Card>,
) -> (r: DuelResult)
    requires
        ready_to_duel(player1, player1_card),
        ready_to_duel(player2, player2_card),
    ensures
        ends(player1, player2, player1_card, player2_card, r),
{
    let mut player1 = player1;
    let mut player2 = player2;
    match (player1_card, player2_card) {
        (Availability::Available(card1), Availability::Available(card2)) => {
            let player1_result = card1.play_against(&card2);
            let player2_result = player1_result.for_opponent();
            let mut returned_cards = vec![card1, card2];
            match player1_result {
                PlayResult::Win => {
                    player1.win_duel();
                    let mut disposed_cards = player2.lose_duel();
                    returned_cards.append(&mut disposed_cards);
                },
                PlayResult::Lose => {
                    let mut disposed_cards = player1.lose_duel();
                    returned_cards.append(&mut disposed_cards);
                    player2.win_duel();
                },
                PlayResult::Draw => {},
            }
            DuelResult {
                player1,
                player2,
                player1_card: Availability::Available(card1),
                player2_card: Availability::Available(card2),
                returned_cards,
                player1_result,
                player2_result,
            }
        },
        (player1_card, player2_card) => DuelResult {
            player1,
            player2,
            player1_card,
            player2_card,
            returned_cards: Vec::new(),
            player1_result: PlayResult::Draw,
            player2_result: PlayResult::Draw,
        },
    }
}

/// `after` follows `before` when every player without a card chooses one, by
/// `strategy` or, when it is `None`, by the player's own strategy.
pub open spec fn round(before: Duel, after: Duel, count: CardCount, strategy: Option<Strategy>) -> bool {
    &&& after.timeout_at == before.timeout_at
    &&& chooses(before.player1, before.player1_card, after.player1, after.player1_card, count,
        match strategy { Some(s) => s, None => before.player1.strategy })
    &&& chooses(before.player2, before.player2_card, after.player2, after.player2_card, count,
        match strategy { Some(s) => s, None => before.player2.strategy })
}

/// `r` is what becomes of duel `d`, whose players have had their own choice,
/// when the deadline has passed or not as `deadline_passed` says.
pub open spec fn settles_or_waits(d: Duel, count: CardCount, deadline_passed: bool, r: DuelStatus) -> bool {
    if both_chosen(d.player1_card, d.player2_card) {
        r matches DuelStatus::Finished(res) && ends_duel(d, res)
    } else if !deadline_passed {
        r matches DuelStatus::Waiting(w) && w == d
    } else {
        r matches DuelStatus::Finished(res) && exists|last: Duel|
            #[trigger] round(d, last, count, Some(Strategy::Random(RandomStrategy))) && ends_duel(last, res)
    }
}

/// `r` ends duel `d` with the cards chosen in it.
pub open spec fn ends_duel(d: Duel, r: DuelResult) -> bool {
    ends(d.player1, d.player2, d.player1_card, d.player2_card, r)
}

/// A choice by any strategy takes exactly one card out of the hand.
proof fn lemma_allows_shrinks(s: Strategy, before: Seq<Card>, after: Seq<Card>, count: CardCount, c: Card)
    requires
        s.allows(before, after, count, c),
    ensures
        after.len() == before.len() - 1,
{
}

proof fn lemma_round_keeps_ready(before: Duel, after: Duel, count: CardCount, strategy: Option<Strategy>)
    requires
        round(before, after, count, strategy),
        ready_to_duel(before.player1, before.player1_card),
        ready_to_duel(before.player2, before.player2_card),
    ensures
        ready_to_duel(after.player1, after.player1_card),
        ready_to_duel(after.player2, after.player2_card),
{
    let s1 = match strategy { Some(s) => s, None => before.player1.strategy };
    let s2 = match strategy { Some(s) => s, None => before.player2.strategy };
    if let (Availability::Waiting, Availability::Available(c)) = (before.player1_card, after.player1_card) {
        lemma_allows_shrinks(s1, before.player1.cards@, after.player1.cards@, count, c);
    }
    if let (Availability::Waiting, Availability::Available(c)) = (before.player2_card, after.player2_card) {
        lemma_allows_shrinks(s2, before.player2.cards@, after.player2.cards@, count, c);
    }
}

/// In a settled duel the two players keep their stars between them, and every
/// card that was in a hand or on the table is afterwards in a hand or among the
/// returned cards.
pub proof fn lemma_settle_conserves(p1: Player, p2: Player, c1: Card, c2: Card, r: DuelResult)
    requires
        settles(p1, p2, c1, c2, r),
        p1.star > 0,
        p2.star > 0,
    ensures
        r.player1.star + r.player2.star == p1.star + p2.star,
        (p1.cards@ + p2.cards@ + seq![c1, c2]).to_multiset() == (r.player1.cards@ + r.player2.cards@
            + r.returned_cards@).to_multiset(),
{
    broadcast use vstd::seq_lib::group_to_multiset_ensures;
    let a = p1.cards@;
    let b = p2.cards@;
    let t = seq![c1, c2];
    lemma_multiset_commutative(a + b, t);
    lemma_multiset_commutative(a, b);
    let x = r.player1.cards@;
    let y = r.player2.cards@;
    let z = r.returned_cards@;
    lemma_multiset_commutative(x + y, z);
    lemma_multiset_commutative(x, y);
    match outcome(c1, c2) {
        PlayResult::Win => {
            lemma_multiset_commutative(t, disposed_on_loss(p2));
            if p2.star == 1 {
                assert(y =~= Seq::<Card>::empty());
            }
        },
        PlayResult::Lose => {
            lemma_multiset_commutative(t, disposed_on_loss(p1));
            if p1.star == 1 {
                assert(x =~= Seq::<Card>::empty());
            }
        },
        PlayResult::Draw => {},
    }
    assert((a + b + t).to_multiset() =~= (x + y + z).to_multiset());
}

/// A player who holds a card, in hand or already chosen, has a card chosen
/// after a round: a duel between two such players never waits.
pub proof fn lemma_round_chooses_held_cards(before: Duel, after: Duel, count: CardCount, strategy: Option<Strategy>)
    requires
        round(before, after, count, strategy),
        before.player1_card is Available || before.player1.cards.len() > 0,
        before.player2_card is Available || before.player2.cards.len() > 0,
    ensures
        both_chosen(after.player1_card, after.player2_card),
{
}

} // verus!
