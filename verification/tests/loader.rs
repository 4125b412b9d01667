use gentei_janken::game::player::{BalancedStrategy, RandomStrategy, Strategy};
use gentei_janken::player_loader::{players_from_json, players_from_lists, strategy_for};

#[test]
fn lists_make_players_in_order() {
    let entries = vec![
        ("balanced".to_string(), vec!["Bob".to_string(), "Cid".to_string()]),
        ("nonsense".to_string(), vec!["X".to_string()]),
        ("random".to_string(), vec!["Ann".to_string()]),
    ];
    let (players, unknown) = players_from_lists(entries);
    let names: Vec<&str> = players.iter().map(|p| p.name.as_str()).collect();
    assert_eq!(names, vec!["Bob", "Cid", "Ann"]);
    assert_eq!(players[0].strategy, Strategy::Balanced(BalancedStrategy));
    assert_eq!(players[2].strategy, Strategy::Random(RandomStrategy));
    assert!(players.iter().all(|p| p.star == 0 && p.cards.is_empty()));
    assert_eq!(unknown, vec!["nonsense".to_string()]);
}

#[test]
fn json_lists_players_by_strategy() {
    let text = r#"{"random": ["Ann", "Bob"], "metarandom": ["Dan"], "weird": ["X"]}"#;
    let (players, unknown) = players_from_json(text).unwrap();
    let mut names: Vec<String> = players.iter().map(|p| p.name.clone()).collect();
    names.sort();
    assert_eq!(names, vec!["Ann".to_string(), "Bob".to_string(), "Dan".to_string()]);
    assert_eq!(unknown, vec!["weird".to_string()]);
}

#[test]
fn invalid_json_gives_nothing() {
    assert!(players_from_json("not json").is_none());
    assert!(players_from_json(r#"{"random": "Ann"}"#).is_none());
    assert!(players_from_json("{}").unwrap().0.is_empty());
}

#[test]
fn strategy_names() {
    assert_eq!(strategy_for(&"random".to_string()), Some(Strategy::Random(RandomStrategy)));
    assert!(matches!(strategy_for(&"probability".to_string()), Some(Strategy::Probability(_))));
    assert!(matches!(strategy_for(&"metarandom".to_string()), Some(Strategy::MetaRandom(_))));
    assert_eq!(strategy_for(&"Random".to_string()), None);
}
