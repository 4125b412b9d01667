//! Players and the strategies by which they choose the card to play.

use vstd::prelude::*;
use crate::chance::random_below;
use crate::game::card::{Card, PlayResult, beats, outcome};
use crate::game::{CardCount, lemma_largest_is_maximum, occurrences};

verus! {

broadcast use vstd::seq_lib::group_to_multiset_ensures;

/// `after` is `before` with one occurrence of `card` taken out.
pub open spec fn takes_one(before: Seq<Card>, after: Seq<Card>, card: Card) -> bool {
    exists|i: int| 0 <= i < before.len() && before[i] == card && after == before.remove(i)
}

/// `after` is `before` with the last occurrence of `card` taken out.
pub open spec fn takes_last(before: Seq<Card>, after: Seq<Card>, card: Card) -> bool {
    exists|i: int|
        0 <= i < before.len() && before[i] == card && after == before.remove(i) && (forall|j: int|
            i < j < before.len() ==> before[j] != card)
}

/// The card that `c` beats.
pub open spec fn prey(c: Card) -> Card {
    match c {
        Card::Rock => Card::Scissors,
        Card::Paper => Card::Rock,
        Card::Scissors => Card::Paper,
    }
}

/// The card that beats `c`.
pub open spec fn predator(c: Card) -> Card {
    match c {
        Card::Rock => Card::Paper,
        Card::Paper => Card::Scissors,
        Card::Scissors => Card::Rock,
    }
}

/// The balanced choice: a card of which the hand holds the most, taken from
/// its last place in the hand.
pub open spec fn balanced_pick(before: Seq<Card>, after: Seq<Card>, card: Card) -> bool {
    &&& forall|k: Card| occurrences(before, k) <= occurrences(before, card)
    &&& takes_last(before, after, card)
}

/// The rank of `c` under the probability strategy, given the cards still in
/// play: 0 when it beats a kind of which the most are in play, 1 when it is
/// such a kind, 2 when it loses to such a kind, 3 otherwise.
pub open spec fn priority_rank(count: CardCount, c: Card) -> int {
    if count.of(prey(c)) == count.largest() {
        0
    } else if count.of(c) == count.largest() {
        1
    } else if count.of(predator(c)) == count.largest() {
        2
    } else {
        3
    }
}

/// The probability choice: the first card of the hand whose rank is the best
/// among the cards of the hand.
pub open spec fn probability_pick(
    before: Seq<Card>,
    after: Seq<Card>,
    count: CardCount,
    card: Card,
) -> bool {
    exists|i: int|
        0 <= i < before.len() && before[i] == card && after == before.remove(i) && (forall|j: int|
            0 <= j < before.len() ==> priority_rank(count, card) <= #[trigger] priority_rank(count, before[j]))
            && (forall|j: int| 0 <= j < i ==> priority_rank(count, card) < #[trigger] priority_rank(count, before[j]))
}

/// `prey` and `predator` are the card beaten by `c` and the card beating it.
pub proof fn lemma_prey_and_predator(c: Card)
    ensures
        outcome(c, prey(c)) == PlayResult::Win,
        outcome(c, predator(c)) == PlayResult::Lose,
        beats(c, prey(c)),
        beats(predator(c), c),
{
}

/// The probability choice counters the kinds most in play: when the hand holds
/// a card that beats a kind of which no fewer are in play than of any other,
/// the chosen card is such a card; and when it holds none, but holds a card of
/// a kind most in play, the chosen card is of such a kind.
pub proof fn lemma_probability_counters_most_common(
    before: Seq<Card>,
    after: Seq<Card>,
    count: CardCount,
    card: Card,
)
    requires
        probability_pick(before, after, count, card),
    ensures
        (exists|j: int|
            0 <= j < before.len() && forall|k: Card| count.of(prey(#[trigger] before[j])) >= #[trigger] count.of(k))
            ==> forall|k: Card| count.of(prey(card)) >= #[trigger] count.of(k),
        (forall|j: int| 0 <= j < before.len() ==> exists|k: Card| count.of(prey(#[trigger] before[j])) < #[trigger] count.of(k))
            && (exists|j: int|
            0 <= j < before.len() && forall|k: Card| count.of(#[trigger] before[j]) >= #[trigger] count.of(k))
            ==> forall|k: Card| count.of(card) >= #[trigger] count.of(k),
{
    lemma_largest_is_maximum(count);
    let i = choose|i: int|
        0 <= i < before.len() && before[i] == card && after == before.remove(i) && (forall|j: int|
            0 <= j < before.len() ==> priority_rank(count, card) <= #[trigger] priority_rank(count, before[j]))
            && (forall|j: int| 0 <= j < i ==> priority_rank(count, card) < #[trigger] priority_rank(count, before[j]));
    if exists|j: int|
        0 <= j < before.len() && forall|k: Card| count.of(prey(#[trigger] before[j])) >= #[trigger] count.of(k) {
        let j = choose|j: int|
            0 <= j < before.len() && forall|k: Card| count.of(prey(#[trigger] before[j])) >= #[trigger] count.of(k);
        let w = choose|k: Card| #[trigger] count.of(k) == count.largest();
        assert(count.of(prey(before[j])) >= count.of(w));
        assert(priority_rank(count, before[j]) == 0);
        assert(priority_rank(count, card) <= priority_rank(count, before[j]));
    }
    if (forall|j: int| 0 <= j < before.len() ==> exists|k: Card| count.of(prey(#[trigger] before[j])) < #[trigger] count.of(k))
        && (exists|j: int|
        0 <= j < before.len() && forall|k: Card| count.of(#[trigger] before[j]) >= #[trigger] count.of(k)) {
        let j = choose|j: int|
            0 <= j < before.len() && forall|k: Card| count.of(#[trigger] before[j]) >= #[trigger] count.of(k);
        let w = choose|k: Card| #[trigger] count.of(k) == count.largest();
        assert(count.of(before[j]) >= count.of(w));
        assert(priority_rank(count, before[j]) <= 1);
        assert(priority_rank(count, card) <= priority_rank(count, before[j]));
        let k0 = choose|k: Card| count.of(prey(before[i])) < #[trigger] count.of(k);
        assert(count.of(prey(card)) < count.of(k0));
        assert(priority_rank(count, card) != 0);
    }
}

/// A strategy by which a player chooses which card of the hand to play.
pub trait PlayStrategy {
    /// Takes one card out of `cards` and returns it.
    fn choose_card(&self, cards: &mut Vec<Card>, playable_card_count: &CardCount) -> (card: Card)
        requires
            old(cards).len() > 0,
        ensures
            takes_one(old(cards)@, final(cards)@, card),
    ;
}

/// Plays a card of the hand chosen at random.
#[derive(Clone, Copy, Debug, PartialEq, Eq, Structural)]
pub struct RandomStrategy;

/// Plays a card of the kind of which the hand holds the most.
#[derive(Clone, Copy, Debug, PartialEq, Eq, Structural)]
pub struct BalancedStrategy;

/// Plays the card that beats the kind of which the most are still in play.
#[derive(Clone, Copy, Debug, PartialEq, Eq, Structural)]
pub struct ProbabilityStrategy;

/// Plays by one of the three other strategies, chosen at random at each play.
#[derive(Clone, Copy, Debug, PartialEq, Eq, Structural)]
pub struct MetaRandomStrategy {
    pub random: RandomStrategy,
    pub balanced: BalancedStrategy,
    pub probability: ProbabilityStrategy,
}

/// The strategy of a player.
#[derive(Clone, Copy, Debug, PartialEq, Eq, Structural)]
pub enum Strategy {
    Random(RandomStrategy),
    Balanced(BalancedStrategy),
    Probability(ProbabilityStrategy),
    MetaRandom(MetaRandomStrategy),
}

impl Strategy {
    /// What a choice by this strategy may take out of the hand.
    pub open spec fn allows(self, before: Seq<Card>, after: Seq<Card>, count: CardCount, card: Card) -> bool {
        match self {
            Strategy::Random(_) => takes_one(before, after, card),
            Strategy::Balanced(_) => balanced_pick(before, after, card),
            Strategy::Probability(_) => probability_pick(before, after, count, card),
            Strategy::MetaRandom(_) => {
                ||| takes_one(before, after, card)
                ||| balanced_pick(before, after, card)
                ||| probability_pick(before, after, count, card)
            },
        }
    }
}

impl PlayStrategy for RandomStrategy {
    fn choose_card(&self, cards: &mut Vec<Card>, _playable_card_count: &CardCount) -> (card: Card) {
        let rand_index = random_below(cards.len());
        cards.remove(rand_index)
    }
}


/// Where the last `c` stands among the first `n` cards of `s`, if any.
pub open spec fn last_place(s: Seq<Card>, n: int, c: Card, place: Option<usize>) -> bool {
    match place {
        Some(j) => 0 <= j < n && s[j as int] == c && forall|m: int| j < m < n ==> s[m] != c,
        None => forall|m: int| 0 <= m < n ==> s[m] != c,
    }
}

/// A kind of card that the hand holds, with its count and its last place.
spec fn tallied(before: Seq<Card>, entry: (usize, usize), kind: Card) -> bool {
    &&& entry.0 == occurrences(before, kind)
    &&& entry.0 > 0
    &&& last_place(before, before.len() as int, kind, Some(entry.1))
}

proof fn lemma_last_place_step(s: Seq<Card>, i: usize, c: Card, place: Option<usize>)
    requires
        0 <= i < s.len(),
        last_place(s, i as int, c, place),
    ensures
        last_place(s, i + 1, c, if s[i as int] == c { Some(i) } else { place }),
{
}

proof fn lemma_last_place_count(s: Seq<Card>, c: Card, place: Option<usize>)
    requires
        last_place(s, s.len() as int, c, place),
    ensures
        place is Some <==> occurrences(s, c) > 0,
{
    if let Some(j) = place {
        assert(s.contains(c));
    } else {
        assert(!s.contains(c));
    }
}

proof fn lemma_take_step(s: Seq<Card>, i: int, c: Card)
    requires
        0 <= i < s.len(),
    ensures
        occurrences(s.take(i + 1), c) == occurrences(s.take(i), c) + (if s[i] == c { 1int } else { 0int }),
{
    assert(s.take(i + 1) =~= s.take(i).push(s[i]));
}

impl PlayStrategy for BalancedStrategy {
    fn choose_card(&self, cards: &mut Vec<Card>, _playable_card_count: &CardCount) -> (card: Card)
        ensures
            balanced_pick(old(cards)@, final(cards)@, card),
    {
        let ghost before = cards@;
        let n = cards.len();
        let mut rock_count: usize = 0;
        let mut paper_count: usize = 0;
        let mut scissors_count: usize = 0;
        let mut rock_place: Option<usize> = None;
        let mut paper_place: Option<usize> = None;
        let mut scissors_place: Option<usize> = None;
        for idx in 0..n
            invariant
                n == before.len(),
                cards@ == before,
                rock_count + paper_count + scissors_count == idx,
                rock_count == occurrences(before.take(idx as int), Card::Rock),
                paper_count == occurrences(before.take(idx as int), Card::Paper),
                scissors_count == occurrences(before.take(idx as int), Card::Scissors),
                last_place(before, idx as int, Card::Rock, rock_place),
                last_place(before, idx as int, Card::Paper, paper_place),
                last_place(before, idx as int, Card::Scissors, scissors_place),
        {
            proof {
                lemma_take_step(before, idx as int, Card::Rock);
                lemma_take_step(before, idx as int, Card::Paper);
                lemma_take_step(before, idx as int, Card::Scissors);
                lemma_last_place_step(before, idx, Card::Rock, rock_place);
                lemma_last_place_step(before, idx, Card::Paper, paper_place);
                lemma_last_place_step(before, idx, Card::Scissors, scissors_place);
            }
            match cards[idx] {
                Card::Rock => {
                    rock_count += 1;
                    rock_place = Some(idx);
                },
                Card::Paper => {
                    paper_count += 1;
                    paper_place = Some(idx);
                },
                Card::Scissors => {
                    scissors_count += 1;
                    scissors_place = Some(idx);
                },
            }
        }
        proof {
            assert(before.take(n as int) =~= before);
            lemma_last_place_count(before, Card::Rock, rock_place);
            lemma_last_place_count(before, Card::Paper, paper_place);
            lemma_last_place_count(before, Card::Scissors, scissors_place);
        }

        // The kinds that the hand holds, as (count, last place).
        let mut choices: Vec<(usize, usize)> = Vec::new();
        let ghost mut kinds: Seq<Card> = Seq::empty();
        if let Some(index) = rock_place {
            choices.push((rock_count, index));
            proof { kinds = kinds.push(Card::Rock); }
        }
        if let Some(index) = paper_place {
            choices.push((paper_count, index));
            proof { kinds = kinds.push(Card::Paper); }
        }
        if let Some(index) = scissors_place {
            choices.push((scissors_count, index));
            proof { kinds = kinds.push(Card::Scissors); }
        }
        assert(forall|j: int| 0 <= j < choices.len() ==> tallied(before, #[trigger] choices@[j], kinds[j]));
        assert(choices.len() == kinds.len());
        assert(forall|k: Card| occurrences(before, k) > 0 ==> kinds.contains(k)) by {
            assert forall|k: Card| occurrences(before, k) > 0 implies kinds.contains(k) by {
                match k {
                    Card::Rock => { assert(kinds[0] == Card::Rock); },
                    Card::Paper => {
                        if rock_place is Some { assert(kinds[1] == Card::Paper); }
                        else { assert(kinds[0] == Card::Paper); }
                    },
                    Card::Scissors => { assert(kinds[kinds.len() - 1] == Card::Scissors); },
                }
            }
        }
        assert(choices.len() > 0) by {
            assert(before.contains(before[0]));
            assert(kinds.contains(before[0]));
        }

        let mut max_count: usize = 0;
        for j in 0..choices.len()
            invariant
                forall|m: int| 0 <= m < j ==> choices@[m].0 <= max_count,
                j > 0 ==> exists|m: int| 0 <= m < j && choices@[m].0 == max_count,
                j == 0 ==> max_count == 0,
        {
            if choices[j].0 > max_count {
                max_count = choices[j].0;
                assert(choices@[j as int].0 == max_count);
            } else if j == 0 {
                assert(choices@[0].0 == max_count);
            }
            assert(exists|m: int| 0 <= m < j + 1 && choices@[m].0 == max_count);
        }

        let mut candidates: Vec<(usize, usize)> = Vec::new();
        let ghost mut candidate_kinds: Seq<Card> = Seq::empty();
        for j in 0..choices.len()
            invariant
                forall|m: int| 0 <= m < choices.len() ==> tallied(before, #[trigger] choices@[m], kinds[m]),
                choices.len() == kinds.len(),
                forall|m: int| 0 <= m < choices.len() ==> choices@[m].0 <= max_count,
                candidates.len() == candidate_kinds.len(),
                forall|m: int| 0 <= m < candidates.len() ==> tallied(before, #[trigger] candidates@[m], candidate_kinds[m]),
                forall|m: int| 0 <= m < candidates.len() ==> #[trigger] candidates@[m].0 == max_count,
                (exists|m: int| 0 <= m < j && choices@[m].0 == max_count) ==> candidates.len() > 0,
        {
            if choices[j].0 == max_count {
                candidates.push(choices[j]);
                proof { candidate_kinds = candidate_kinds.push(kinds[j as int]); }
            }
        }

        let pick = random_below(candidates.len());
        let chosen = candidates[pick];
        let ghost kind = candidate_kinds[pick as int];
        proof {
            assert(tallied(before, chosen, kind));
            assert forall|k: Card| occurrences(before, k) <= occurrences(before, kind) by {
                if occurrences(before, k) > 0 {
                    assert(kinds.contains(k));
                    let m = choose|m: int| 0 <= m < kinds.len() && kinds[m] == k;
                    assert(tallied(before, choices@[m], kinds[m]));
                }
            }
        }
        let card = cards.remove(chosen.1);
        proof {
            assert(takes_last(before, cards@, card));
            assert(takes_one(before, cards@, card));
        }
        card
    }
}

/// The rank of `c` under the probability strategy, computed from the counts
/// and their largest value.
fn rank_of(count: &CardCount, max_count: usize, c: Card) -> (r: u8)
    requires
        max_count == count.largest(),
    ensures
        r == priority_rank(*count, c),
{
    if count_for(count, prey_of(c)) == max_count {
        0
    } else if count_for(count, c) == max_count {
        1
    } else if count_for(count, predator_of(c)) == max_count {
        2
    } else {
        3
    }
}

/// The count kept for cards of kind `c`.
fn count_for(count: &CardCount, c: Card) -> (r: usize)
    ensures
        r == count.of(c),
{
    match c {
        Card::Rock => count.rock,
        Card::Paper => count.paper,
        Card::Scissors => count.scissors,
    }
}

/// The card that `c` beats.
fn prey_of(c: Card) -> (r: Card)
    ensures
        r == prey(c),
{
    match c {
        Card::Rock => Card::Scissors,
        Card::Paper => Card::Rock,
        Card::Scissors => Card::Paper,
    }
}

/// The card that beats `c`.
fn predator_of(c: Card) -> (r: Card)
    ensures
        r == predator(c),
{
    match c {
        Card::Rock => Card::Paper,
        Card::Paper => Card::Scissors,
        Card::Scissors => Card::Rock,
    }
}

impl PlayStrategy for ProbabilityStrategy {
    fn choose_card(&self, cards: &mut Vec<Card>, playable_card_count: &CardCount) -> (card: Card)
        ensures
            probability_pick(old(cards)@, final(cards)@, *playable_card_count, card),
    {
        let ghost before = cards@;
        let ghost count = *playable_card_count;
        let max_count = playable_card_count.max();
        let mut best_index: usize = 0;
        let mut best_rank: u8 = rank_of(playable_card_count, max_count, cards[0]);
        let n = cards.len();
        for idx in 1..n
            invariant
                n == before.len(),
                cards@ == before,
                count == *playable_card_count,
                max_count == count.largest(),
                best_index < idx,
                best_rank == priority_rank(count, before[best_index as int]),
                forall|j: int| 0 <= j < idx ==> best_rank <= #[trigger] priority_rank(count, before[j]),
                forall|j: int| 0 <= j < best_index ==> best_rank < #[trigger] priority_rank(count, before[j]),
        {
            let rank = rank_of(playable_card_count, max_count, cards[idx]);
            if rank < best_rank {
                best_index = idx;
                best_rank = rank;
            }
        }
        let card = cards.remove(best_index);
        proof {
            assert(before[best_index as int] == card);
            assert(cards@ == before.remove(best_index as int));
        }
        card
    }
}

impl MetaRandomStrategy {
    /// A strategy that picks among the random, balanced and probability
    /// strategies at each play.
    pub fn new() -> (r: MetaRandomStrategy)
        ensures
            r == (MetaRandomStrategy {
                random: RandomStrategy,
                balanced: BalancedStrategy,
                probability: ProbabilityStrategy,
            }),
    {
        MetaRandomStrategy {
            random: RandomStrategy,
            balanced: BalancedStrategy,
            probability: ProbabilityStrategy,
        }
    }
}

impl Default for MetaRandomStrategy {
    fn default() -> (r: MetaRandomStrategy)
        ensures
            r == (MetaRandomStrategy {
                random: RandomStrategy,
                balanced: BalancedStrategy,
                probability: ProbabilityStrategy,
            }),
    {
        Self::new()
    }
}

impl PlayStrategy for MetaRandomStrategy {
    fn choose_card(&self, cards: &mut Vec<Card>, playable_card_count: &CardCount) -> (card: Card)
        ensures
            Strategy::MetaRandom(*self).allows(old(cards)@, final(cards)@, *playable_card_count, card),
    {
        let rand_index = random_below(3);
        if rand_index == 0 {
            self.random.choose_card(cards, playable_card_count)
        } else if rand_index == 1 {
            self.balanced.choose_card(cards, playable_card_count)
        } else {
            self.probability.choose_card(cards, playable_card_count)
        }
    }
}

impl PlayStrategy for Strategy {
    fn choose_card(&self, cards: &mut Vec<Card>, playable_card_count: &CardCount) -> (card: Card)
        ensures
            self.allows(old(cards)@, final(cards)@, *playable_card_count, card),
    {
        match self {
            Strategy::Random(s) => s.choose_card(cards, playable_card_count),
            Strategy::Balanced(s) => s.choose_card(cards, playable_card_count),
            Strategy::Probability(s) => s.choose_card(cards, playable_card_count),
            Strategy::MetaRandom(s) => s.choose_card(cards, playable_card_count),
        }
    }
}

/// Whether a player's card for the current duel is chosen yet.
pub enum Availability<T> {
    Available(T),
    Waiting,
}

/// A player of the tournament.
pub struct Player {
    pub name: String,
    pub strategy: Strategy,
    pub star: usize,
    pub cards: Vec<Card>,
}

impl Player {
    /// A new player without stars or cards.
    pub fn new(name: String, strategy: Strategy) -> (r: Player)
        ensures
            r.name == name,
            r.strategy == strategy,
            r.star == 0,
            r.cards@ == Seq::<Card>::empty(),
    {
        Player { name, strategy, star: 0, cards: Vec::new() }
    }

    /// Gives the player its starting stars and hand.
    pub fn init(&mut self, star: usize, cards: Vec<Card>)
        ensures
            final(self).name == old(self).name,
            final(self).strategy == old(self).strategy,
            final(self).star == star,
            final(self).cards@ == cards@,
    {
        self.star = star;
        self.cards = cards;
    }

    /// Chooses the card to play by the player's strategy and takes it out of
    /// the hand.
    pub fn set_card_to_play(&mut self, returned_cards: &CardCount) -> (card: Card)
        requires
            old(self).cards.len() > 0,
        ensures
            final(self).name == old(self).name,
            final(self).strategy == old(self).strategy,
            final(self).star == old(self).star,
            old(self).strategy.allows(old(self).cards@, final(self).cards@, *returned_cards, card),
    {
        self.strategy.choose_card(&mut self.cards, returned_cards)
    }

    /// Chooses a card when the hand holds one; a player without cards has
    /// nothing to play yet.
    pub fn try_choose_card(&mut self, playable_card_count: &CardCount) -> (r: Availability<Card>)
        ensures
            final(self).name == old(self).name,
            final(self).strategy == old(self).strategy,
            final(self).star == old(self).star,
            match r {
                Availability::Available(card) => old(self).cards.len() > 0
                    && old(self).strategy.allows(old(self).cards@, final(self).cards@, *playable_card_count, card),
                Availability::Waiting => old(self).cards.len() == 0 && final(self).cards@ == old(self).cards@,
            },
    {
        if self.cards.len() == 0 {
            Availability::Waiting
        } else {
            Availability::Available(self.set_card_to_play(playable_card_count))
        }
    }

    /// The player wins a duel and gains a star.
    pub fn win_duel(&mut self)
        requires
            old(self).star < usize::MAX,
        ensures
            final(self).name == old(self).name,
            final(self).strategy == old(self).strategy,
            final(self).star == old(self).star + 1,
            final(self).cards == old(self).cards,
    {
        self.star += 1;
    }

    /// The player loses a duel and a star; a player left without stars gives
    /// up the whole hand, which is returned.
    pub fn lose_duel(&mut self) -> (disposed: Vec<Card>)
        requires
            old(self).star > 0,
        ensures
            final(self).name == old(self).name,
            final(self).strategy == old(self).strategy,
            final(self).star == old(self).star - 1,
            final(self).star == 0 ==> disposed@ == old(self).cards@ && final(self).cards@ == Seq::<Card>::empty(),
            final(self).star > 0 ==> disposed@ == Seq::<Card>::empty() && final(self).cards == old(self).cards,
    {
        self.star -= 1;

        if self.star == 0 {
            return self.take_remaining_cards();
        }

        Vec::new()
    }

    /// Takes the whole hand out of the player.
    pub fn take_remaining_cards(&mut self) -> (taken: Vec<Card>)
        ensures
            final(self).name == old(self).name,
            final(self).strategy == old(self).strategy,
            final(self).star == old(self).star,
            taken@ == old(self).cards@,
            final(self).cards@ == Seq::<Card>::empty(),
    {
        let mut taken: Vec<Card> = Vec::new();
        std::mem::swap(&mut taken, &mut self.cards);
        taken
    }
}

} // verus!
