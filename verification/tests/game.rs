use gentei_janken::game::card::{Card, PlayResult};
use gentei_janken::game::duel::{Duel, DuelResult, DuelStatus};
use gentei_janken::game::player::{
    Availability, BalancedStrategy, MetaRandomStrategy, PlayStrategy, Player, ProbabilityStrategy, RandomStrategy, Strategy,
};
use gentei_janken::game::{CardCount, Game, GameEvent};
use std::time::{Duration, Instant};

fn player(name: &str, star: usize, cards: Vec<Card>, strategy: Strategy) -> Player {
    Player { name: name.to_string(), star, cards, strategy }
}

#[test]
fn add_player_works_when_game_is_not_started() {
    let mut not_starting_game = Game { players: Vec::new(), is_playing: false };

    let new_player = Player {
        name: "player1".to_string(),
        star: 0,
        cards: Vec::new(),
        strategy: Strategy::Random(RandomStrategy {}),
    };

    not_starting_game.add_player(new_player);

    assert!(not_starting_game.players.len() == 1);
}

#[test]
fn add_player_is_ignored_once_the_game_plays() {
    let mut game = Game { players: Vec::new(), is_playing: true };
    game.add_player(player("late", 0, Vec::new(), Strategy::Random(RandomStrategy)));
    game.add_players(vec![player("later", 0, Vec::new(), Strategy::Random(RandomStrategy))]);
    assert!(game.players.is_empty());
}

#[test]
fn add_players_appends_in_order() {
    let mut game = Game::new();
    game.add_player(player("a", 0, Vec::new(), Strategy::Random(RandomStrategy)));
    game.add_players(vec![
        player("b", 0, Vec::new(), Strategy::Random(RandomStrategy)),
        player("c", 0, Vec::new(), Strategy::Random(RandomStrategy)),
    ]);
    let names: Vec<&str> = game.players.iter().map(|p| p.name.as_str()).collect();
    assert_eq!(names, vec!["a", "b", "c"]);
    assert!(!game.is_playing);
}

#[test]
fn paper_beats_rock() {
    let cases = [
        // Rock Case
        (Card::Rock, Card::Scissors, PlayResult::Win),
        (Card::Rock, Card::Paper, PlayResult::Lose),
        (Card::Rock, Card::Rock, PlayResult::Draw),
        // Paper case
        (Card::Paper, Card::Rock, PlayResult::Win),
        (Card::Paper, Card::Scissors, PlayResult::Lose),
        (Card::Paper, Card::Paper, PlayResult::Draw),
        // Scissors case
        (Card::Scissors, Card::Paper, PlayResult::Win),
        (Card::Scissors, Card::Rock, PlayResult::Lose),
        (Card::Scissors, Card::Scissors, PlayResult::Draw),
    ];

    for (card, opponent_card, expected_result) in cases {
        let result = card.play_against(&opponent_card);

        assert_eq!(result, expected_result, "{:?} against {:?} failed", card, opponent_card);
    }
}

#[test]
fn outcome_seen_from_both_sides_is_opposite() {
    let cards = [Card::Rock, Card::Paper, Card::Scissors];
    for a in cards {
        for b in cards {
            assert_eq!(a.play_against(&b), b.play_against(&a).for_opponent());
        }
    }
    assert_eq!(PlayResult::Win.for_opponent(), PlayResult::Lose);
    assert_eq!(PlayResult::Lose.for_opponent(), PlayResult::Win);
    assert_eq!(PlayResult::Draw.for_opponent(), PlayResult::Draw);
}

#[test]
fn play_works() {
    let winner = Player {
        name: "player1".to_string(),
        star: 1,
        cards: vec![Card::Paper],
        strategy: Strategy::Random(RandomStrategy),
    };

    let loser = Player {
        name: "player2".to_string(),
        star: 1,
        cards: vec![Card::Rock, Card::Rock],
        strategy: Strategy::Random(RandomStrategy),
    };

    let mut duel = Duel::new(winner, loser, Instant::now() + Duration::from_secs(5));

    let playable_card_count = CardCount::new(0);
    let result = loop {
        match duel.play(&playable_card_count) {
            DuelStatus::Finished(duel_result) => break duel_result,
            DuelStatus::Waiting(ongoing_duel) => duel = ongoing_duel,
        }
    };

    assert_eq!(result.player1.star, 2);
    assert_eq!(result.player2.star, 0);
    assert_eq!(result.returned_cards.len(), 2 + 1);
    assert!(result.player2.cards.is_empty());
}

#[test]
fn duel_without_cards_is_abandoned_after_the_deadline() {
    let a = player("a", 1, Vec::new(), Strategy::Random(RandomStrategy));
    let b = player("b", 1, vec![Card::Rock], Strategy::Random(RandomStrategy));
    let duel = Duel::new(a, b, Instant::now());
    let count = CardCount::new(0);
    match duel.play(&count) {
        DuelStatus::Finished(r) => {
            assert_eq!(r.player1_result, PlayResult::Draw);
            assert_eq!(r.player2_result, PlayResult::Draw);
            assert!(r.returned_cards.is_empty());
            assert_eq!(r.player1.star, 1);
            assert_eq!(r.player2.star, 1);
            assert!(r.player2.cards.is_empty());
        }
        DuelStatus::Waiting(_) => panic!("the deadline has passed"),
    }
}

#[test]
fn duel_waits_before_the_deadline() {
    let a = player("a", 1, Vec::new(), Strategy::Random(RandomStrategy));
    let b = player("b", 1, vec![Card::Rock], Strategy::Random(RandomStrategy));
    let duel = Duel::new(a, b, Instant::now() + Duration::from_secs(60));
    let count = CardCount::new(0);
    match duel.play(&count) {
        DuelStatus::Waiting(d) => {
            assert!(d.player2.cards.is_empty());
        }
        DuelStatus::Finished(_) => panic!("the deadline is ahead"),
    }
}

#[test]
fn draw_returns_only_the_played_cards() {
    let a = player("a", 2, vec![Card::Rock], Strategy::Random(RandomStrategy));
    let b = player("b", 2, vec![Card::Rock, Card::Rock], Strategy::Random(RandomStrategy));
    let duel = Duel::new(a, b, Instant::now() + Duration::from_secs(5));
    match duel.play(&CardCount::new(0)) {
        DuelStatus::Finished(r) => {
            assert_eq!(r.player1_result, PlayResult::Draw);
            assert_eq!(r.returned_cards, vec![Card::Rock, Card::Rock]);
            assert_eq!(r.player1.star + r.player2.star, 4);
            assert_eq!(r.player2.cards, vec![Card::Rock]);
        }
        DuelStatus::Waiting(_) => panic!("both players hold cards"),
    }
}

#[test]
fn init_works() {
    let mut player = Player {
        name: "player1".to_string(),
        star: 0,
        cards: Vec::new(),
        strategy: Strategy::Random(RandomStrategy),
    };

    let star = 3;
    let total_card = 4;

    let mut initial_cards = Vec::new();
    for _ in 0..total_card {
        initial_cards.push(Card::Rock);
        initial_cards.push(Card::Paper);
        initial_cards.push(Card::Scissors);
    }

    let expected_len = initial_cards.len();

    // Pass the vector into init
    player.init(star, initial_cards);

    assert!(player.star == star);
    assert!(player.cards.len() == expected_len);
}

#[test]
fn random_strategy_works() {
    let mut player = Player {
        name: "player1".to_string(),
        star: 0,
        cards: vec![Card::Rock, Card::Paper, Card::Scissors],
        strategy: Strategy::Random(RandomStrategy),
    };

    let playable_card_count = CardCount::new(0);
    let _selected_card = player.set_card_to_play(&playable_card_count);

    assert_eq!(player.cards.len(), 2);
}

#[test]
fn balanced_strategy_works() {
    let mut player = Player {
        name: "player1".to_string(),
        star: 0,
        cards: vec![Card::Rock, Card::Rock, Card::Paper, Card::Scissors],
        strategy: Strategy::Balanced(BalancedStrategy),
    };

    let playable_card_count = CardCount::new(0);
    let selected_card = player.set_card_to_play(&playable_card_count);

    assert_eq!(selected_card, Card::Rock);
    assert_eq!(player.cards.len(), 3);
}

#[test]
fn balanced_strategy_takes_the_last_of_the_kind() {
    let mut cards = vec![Card::Paper, Card::Scissors, Card::Paper, Card::Rock];
    let card = BalancedStrategy.choose_card(&mut cards, &CardCount::new(0));
    assert_eq!(card, Card::Paper);
    assert_eq!(cards, vec![Card::Paper, Card::Scissors, Card::Rock]);
}

#[test]
fn probability_strategy_counters_the_most_common_kind() {
    // Rock is the most common kind in play: paper beats it.
    let mut count = CardCount::new(0);
    count.rock = 3;
    count.paper = 1;
    count.scissors = 2;
    let mut cards = vec![Card::Rock, Card::Paper, Card::Scissors, Card::Paper];
    let card = ProbabilityStrategy.choose_card(&mut cards, &count);
    assert_eq!(card, Card::Paper);
    assert_eq!(cards, vec![Card::Rock, Card::Scissors, Card::Paper]);
}

#[test]
fn probability_strategy_falls_back_on_the_most_common_kind() {
    // Without paper in the hand, rock itself comes next, before scissors.
    let mut count = CardCount::new(0);
    count.rock = 3;
    let mut cards = vec![Card::Scissors, Card::Rock];
    let card = ProbabilityStrategy.choose_card(&mut cards, &count);
    assert_eq!(card, Card::Rock);
    assert_eq!(cards, vec![Card::Scissors]);
}

#[test]
fn probability_strategy_works() {
    let mut player = Player {
        name: "player1".to_string(),
        star: 0,
        cards: vec![Card::Rock, Card::Paper, Card::Scissors],
        strategy: Strategy::Probability(ProbabilityStrategy),
    };

    let mut playable_card_count = CardCount::new(0);
    playable_card_count.rock = 1;
    playable_card_count.paper = 2;
    playable_card_count.scissors = 2;

    let selected_card = player.set_card_to_play(&playable_card_count);

    assert_eq!(selected_card, Card::Rock);
    assert_eq!(player.cards.len(), 2);
}

#[test]
fn probability_strategy_breaks_a_tie_by_hand_order() {
    // Scissors and rock both beat a most common kind; scissors comes first.
    let mut count = CardCount::new(0);
    count.rock = 1;
    count.paper = 2;
    count.scissors = 2;
    let mut cards = vec![Card::Paper, Card::Scissors, Card::Rock];
    let card = ProbabilityStrategy.choose_card(&mut cards, &count);
    assert_eq!(card, Card::Scissors);
    assert_eq!(cards, vec![Card::Paper, Card::Rock]);
}

#[test]
fn meta_random_strategy_takes_one_card() {
    let strategy = MetaRandomStrategy::new();
    let mut cards = vec![Card::Rock, Card::Paper];
    let card = strategy.choose_card(&mut cards, &CardCount::new(1));
    assert_eq!(cards.len(), 1);
    assert!(card == Card::Rock || card == Card::Paper);
    assert_ne!(cards[0], card);
}

#[test]
fn try_choose_card_waits_without_cards() {
    let mut p = player("p", 1, Vec::new(), Strategy::Balanced(BalancedStrategy));
    assert!(matches!(p.try_choose_card(&CardCount::new(0)), gentei_janken::game::player::Availability::Waiting));
}

#[test]
fn lose_duel_gives_up_the_hand_with_the_last_star() {
    let mut p = player("p", 2, vec![Card::Rock, Card::Paper], Strategy::Random(RandomStrategy));
    assert!(p.lose_duel().is_empty());
    assert_eq!(p.star, 1);
    assert_eq!(p.lose_duel(), vec![Card::Rock, Card::Paper]);
    assert_eq!(p.star, 0);
    assert!(p.cards.is_empty());
    p.win_duel();
    assert_eq!(p.star, 1);
    assert!(p.take_remaining_cards().is_empty());
}

#[test]
fn card_count_remove_and_max() {
    let mut count = CardCount::new(3);
    assert_eq!(count.total(), 9);
    count.remove(vec![Card::Rock, Card::Rock, Card::Scissors]);
    assert_eq!((count.rock, count.paper, count.scissors), (1, 3, 2));
    assert_eq!(count.max(), 3);
    assert_eq!(count.total(), 6);
}

#[test]
fn tournament_keeps_all_stars() {
    let mut game = Game::new();
    for (i, strategy) in [
        Strategy::Random(RandomStrategy),
        Strategy::Balanced(BalancedStrategy),
        Strategy::Probability(ProbabilityStrategy),
        Strategy::MetaRandom(MetaRandomStrategy::new()),
        Strategy::Random(RandomStrategy),
    ]
    .into_iter()
    .enumerate()
    {
        game.add_player(Player::new(format!("p{}", i), strategy));
    }
    let report = game.play();
    let total: usize = report.winners.iter().chain(report.losers.iter()).map(|p| p.star).sum();
    assert_eq!(total, 5 * 3);
    assert_eq!(report.winners.len() + report.losers.len(), 5);
    assert_eq!(report.events.len(), 5);
    for w in &report.winners {
        assert!(w.star >= 5);
    }
    let wins = report.events.iter().filter(|e| matches!(e, GameEvent::Won(_, _))).count();
    assert_eq!(wins, report.winners.len());
}

#[test]
fn tournament_of_one_player_has_no_opponent() {
    let mut game = Game::new();
    game.add_player(Player::new("alone".to_string(), Strategy::Random(RandomStrategy)));
    let report = game.play();
    assert!(report.winners.is_empty());
    assert_eq!(report.losers.len(), 1);
    assert_eq!(report.losers[0].star, 3);
    assert!(report.losers[0].cards.is_empty());
    assert!(matches!(&report.events[0], GameEvent::NoOpponent(name) if name == "alone"));
}

#[test]
fn settle_or_wait_waits_before_the_deadline() {
    let a = player("a", 1, vec![Card::Paper], Strategy::Random(RandomStrategy));
    let b = player("b", 1, vec![Card::Rock], Strategy::Random(RandomStrategy));
    let duel = Duel::new(a, b, Instant::now());
    match duel.settle_or_wait(&CardCount::new(1), false) {
        DuelStatus::Waiting(d) => {
            assert!(matches!(d.player1_card, Availability::Waiting));
            assert!(matches!(d.player2_card, Availability::Waiting));
            assert_eq!(d.player1.cards, vec![Card::Paper]);
            assert_eq!(d.player2.cards, vec![Card::Rock]);
        }
        DuelStatus::Finished(_) => panic!("the deadline is said to be ahead"),
    }
}

#[test]
fn settle_or_wait_plays_at_random_after_the_deadline() {
    let a = player("a", 1, vec![Card::Paper], Strategy::Balanced(BalancedStrategy));
    let b = player("b", 1, vec![Card::Rock], Strategy::Balanced(BalancedStrategy));
    let duel = Duel::new(a, b, Instant::now() + Duration::from_secs(60));
    match duel.settle_or_wait(&CardCount::new(1), true) {
        DuelStatus::Finished(r) => {
            assert_eq!(r.player1_result, PlayResult::Win);
            assert_eq!(r.player2_result, PlayResult::Lose);
            assert_eq!(r.player1.star, 2);
            assert_eq!(r.player2.star, 0);
            assert_eq!(r.returned_cards, vec![Card::Paper, Card::Rock]);
            assert_eq!(r.player1.strategy, Strategy::Balanced(BalancedStrategy));
        }
        DuelStatus::Waiting(_) => panic!("the deadline is said to have passed"),
    }
}

#[test]
fn settle_or_wait_settles_chosen_cards_whatever_the_deadline() {
    let a = player("a", 2, Vec::new(), Strategy::Random(RandomStrategy));
    let b = player("b", 2, vec![Card::Paper], Strategy::Random(RandomStrategy));
    let mut duel = Duel::new(a, b, Instant::now() + Duration::from_secs(60));
    duel.player1_card = Availability::Available(Card::Scissors);
    duel.player2_card = Availability::Available(Card::Rock);
    match duel.settle_or_wait(&CardCount::new(1), false) {
        DuelStatus::Finished(r) => {
            assert_eq!(r.player1_result, PlayResult::Lose);
            assert_eq!(r.player1.star, 1);
            assert_eq!(r.player2.star, 3);
            assert_eq!(r.player2.cards, vec![Card::Paper]);
            assert_eq!(r.returned_cards, vec![Card::Scissors, Card::Rock]);
        }
        DuelStatus::Waiting(_) => panic!("both cards are chosen"),
    }
}

#[test]
fn settle_round_sorts_out_both_players() {
    let result = DuelResult {
        player1: player("winner", 5, Vec::new(), Strategy::Random(RandomStrategy)),
        player2: player("again", 2, vec![Card::Rock], Strategy::Random(RandomStrategy)),
        returned_cards: vec![Card::Rock, Card::Scissors],
        player1_card: Availability::Available(Card::Rock),
        player2_card: Availability::Available(Card::Scissors),
        player1_result: PlayResult::Win,
        player2_result: PlayResult::Lose,
    };
    let mut waiting = vec![player("other", 3, vec![Card::Paper], Strategy::Random(RandomStrategy))];
    let mut winners = Vec::new();
    let mut losers = Vec::new();
    let mut events = Vec::new();
    let mut count = CardCount::new(0);
    count.rock = 3;
    count.scissors = 2;
    count.paper = 1;
    Game::settle_round(result, &mut waiting, &mut winners, &mut losers, &mut events, &mut count);
    assert_eq!(waiting.len(), 2);
    assert_eq!(waiting[1].name, "again");
    assert_eq!(winners.len(), 1);
    assert_eq!(winners[0].name, "winner");
    assert!(losers.is_empty());
    assert!(matches!(&events[..], [GameEvent::Won(name, 5)] if name == "winner"));
    assert_eq!((count.rock, count.paper, count.scissors), (2, 1, 1));
}

#[test]
fn settle_round_reports_a_loss_below_the_target() {
    let result = DuelResult {
        player1: player("out", 0, Vec::new(), Strategy::Random(RandomStrategy)),
        player2: player("empty", 4, Vec::new(), Strategy::Random(RandomStrategy)),
        returned_cards: vec![Card::Paper, Card::Scissors, Card::Rock],
        player1_card: Availability::Available(Card::Paper),
        player2_card: Availability::Available(Card::Scissors),
        player1_result: PlayResult::Lose,
        player2_result: PlayResult::Win,
    };
    let mut waiting = Vec::new();
    let mut winners = Vec::new();
    let mut losers = Vec::new();
    let mut events = Vec::new();
    let mut count = CardCount::new(1);
    Game::settle_round(result, &mut waiting, &mut winners, &mut losers, &mut events, &mut count);
    assert!(waiting.is_empty());
    assert!(winners.is_empty());
    assert_eq!(losers.len(), 2);
    assert_eq!(events.len(), 2);
    assert!(matches!(&events[0], GameEvent::Lost(name) if name == "out"));
    assert!(matches!(&events[1], GameEvent::Lost(name) if name == "empty"));
    assert_eq!(count.total(), 0);
}

#[test]
fn tournament_reports_no_opponent_only_last() {
    let mut game = Game::new();
    for i in 0..3 {
        game.add_player(Player::new(format!("p{}", i), Strategy::Random(RandomStrategy)));
    }
    let report = game.play();
    let n = report.events.len();
    for (i, event) in report.events.iter().enumerate() {
        if matches!(event, GameEvent::NoOpponent(_)) {
            assert_eq!(i, n - 1);
        }
    }
    let no_opponent = matches!(report.events.last(), Some(GameEvent::NoOpponent(_)));
    for (i, loser) in report.losers.iter().enumerate() {
        assert!(loser.star < 5 || (no_opponent && i == report.losers.len() - 1));
    }
    let total: usize = report.winners.iter().chain(report.losers.iter()).map(|p| p.star).sum();
    assert_eq!(total, 3 * 3);
}
