//! Cards and the outcome of playing one card against another.

use vstd::prelude::*;

verus! {

/// A card of the game.
#[derive(Clone, Copy, Debug, PartialEq, Eq, Structural)]
pub enum Card {
    Rock,
    Paper,
    Scissors,
}

/// The outcome of a play, seen from one side.
#[derive(Clone, Copy, Debug, PartialEq, Eq, Structural)]
pub enum PlayResult {
    Win,
    Lose,
    Draw,
}

/// `a` beats `b`: rock crushes scissors, scissors cut paper, paper covers rock.
pub open spec fn beats(a: Card, b: Card) -> bool {
    match (a, b) {
        (Card::Rock, Card::Scissors) => true,
        (Card::Scissors, Card::Paper) => true,
        (Card::Paper, Card::Rock) => true,
        _ => false,
    }
}

/// The outcome of playing `a` against `b`, seen from the side of `a`.
pub open spec fn outcome(a: Card, b: Card) -> PlayResult {
    if beats(a, b) {
        PlayResult::Win
    } else if beats(b, a) {
        PlayResult::Lose
    } else {
        PlayResult::Draw
    }
}

/// The same outcome seen from the other side.
pub open spec fn opposite(r: PlayResult) -> PlayResult {
    match r {
        PlayResult::Win => PlayResult::Lose,
        PlayResult::Lose => PlayResult::Win,
        PlayResult::Draw => PlayResult::Draw,
    }
}

impl Card {
    /// Plays this card against `other`.
    pub fn play_against(&self, other: &Card) -> (r: PlayResult)
        ensures
            r == outcome(*self, *other),
    {
        match (self, other) {
            (Card::Rock, Card::Scissors) | (Card::Scissors, Card::Paper) | (Card::Paper, Card::Rock) => PlayResult::Win,
            (Card::Scissors, Card::Rock) | (Card::Paper, Card::Scissors) | (Card::Rock, Card::Paper) => PlayResult::Lose,
            _ => PlayResult::Draw,
        }
    }
}

impl PlayResult {
    /// The result that the opponent gets when this side gets `self`.
    pub fn for_opponent(&self) -> (r: PlayResult)
        ensures
            r == opposite(*self),
    {
        match self {
            PlayResult::Win => PlayResult::Lose,
            PlayResult::Lose => PlayResult::Win,
            PlayResult::Draw => PlayResult::Draw,
        }
    }
}

/// Playing `a` against `b` gives the opposite of playing `b` against `a`.
pub proof fn lemma_outcome_antisymmetric(a: Card, b: Card)
    ensures
        outcome(a, b) == opposite(outcome(b, a)),
{
}

/// A play is a draw exactly when both sides play the same card.
pub proof fn lemma_draw_iff_same(a: Card, b: Card)
    ensures
        (outcome(a, b) == PlayResult::Draw) <==> (a == b),
{
}

/// Every card beats exactly one card and loses to exactly one card.
pub proof fn lemma_cycle(a: Card)
    ensures
        exists|b: Card| #[trigger] beats(a, b),
        exists|b: Card| #[trigger] beats(b, a),
        forall|b: Card, c: Card| beats(a, b) && beats(a, c) ==> b == c,
        forall|b: Card, c: Card| beats(b, a) && beats(c, a) ==> b == c,
{
    match a {
        Card::Rock => {
            assert(beats(a, Card::Scissors));
            assert(beats(Card::Paper, a));
        },
        Card::Paper => {
            assert(beats(a, Card::Rock));
            assert(beats(Card::Scissors, a));
        },
        Card::Scissors => {
            assert(beats(a, Card::Paper));
            assert(beats(Card::Rock, a));
        },
    }
}

/// Taking the opponent's view twice gives back the first result.
pub proof fn lemma_opposite_involutive(r: PlayResult)
    ensures
        opposite(opposite(r)) == r,
{
}

} // verus!
