use gentei_janken::game::card::Card;
use gentei_janken::game::state::{GameState, PlayerInfo, PlayerState};
use gentei_janken::game::CardCount;
use gentei_janken::network::{Client, ClientMessage, HostMessage};
use gentei_janken::ui::KeyResult;

fn info(id: usize, name: &str, status: usize) -> PlayerInfo {
    PlayerInfo { id, name: name.to_string(), status }
}

fn count(rock: usize, paper: usize, scissors: usize) -> CardCount {
    CardCount { rock, paper, scissors }
}

#[test]
fn new_client_has_just_joined() {
    let (client, lines) = Client::new(100, 30);
    assert!(!client.is_quit);
    assert!(matches!(client.state, PlayerState::Joined));
    assert_eq!(lines.len(), 25);
}

#[test]
fn waiting_room_update() {
    let (mut client, _) = Client::new(100, 30);
    let message = HostMessage::Update {
        game_state: GameState::Waiting { player_infos: vec![info(1, "me", 1), info(2, "you", 0)] },
        player_state: PlayerState::Joined,
        player_logs: vec!["me has joined".to_string()],
    };
    let lines = client.handle_message(message);
    // log (20 rows), title, subtitle, list (20 rows, title, blank, 2 players), instruction
    assert_eq!(lines.len(), 20 + 2 + 24 + 1);
    assert!(lines[19].text.starts_with("│me has joined"));
    assert_eq!(lines[20].text, format!("Room{}", " ".repeat(96)));
    assert!(lines[21].text.starts_with("Waiting for players..."));
    assert!(lines[42].text.starts_with("Players (1/2): "));
    assert!(lines[44].text.starts_with("me 🟢 [You]"));
    assert!(lines[45].text.starts_with("you 🔴"));
    assert!(lines[46].text.starts_with("Ready: [Y] Yes, [N] No"));
    assert_eq!(client.term_ui.log_buffer.len(), 1);
}

#[test]
fn playing_update_shows_cards_and_stars() {
    let (mut client, _) = Client::new(100, 30);
    let message = HostMessage::Update {
        game_state: GameState::Playing {
            remaining_players: vec![info(1, "me", 2)],
            winners: vec![info(3, "best", 5)],
            playable_card_count: count(3, 2, 1),
        },
        player_state: PlayerState::InDuel {
            star: 2,
            playable_card_count: count(1, 0, 2),
            opponent_name: "bob".to_string(),
            remaining_secs: 9,
        },
        player_logs: Vec::new(),
    };
    let lines = client.handle_message(message);
    assert_eq!(lines.len(), 20 + 2 + 23 + 23 + 3);
    assert!(lines[20].text.starts_with("Playable Cards:"));
    assert!(lines[21].text.starts_with("✊:3 | ✋:2 | ✌️:1"));
    assert!(lines[42].text.starts_with("Winners: "));
    assert!(lines[44].text.starts_with("best ⭐⭐⭐⭐⭐"));
    assert!(lines[65].text.starts_with("Remaining Players: "));
    assert!(lines[67].text.starts_with("me ⭐⭐ [You]"));
    assert!(lines[68].text.starts_with("Stars:⭐⭐ | Your Cards:"));
    assert!(lines[69].text.starts_with("✊:1 | ✋:0 | ✌️:2"));
    assert!(lines[70].text.starts_with("Duel vs bob | Choose Card: [R]✊, [P]✋, [S]✌️ | Time: 9s"));
    assert!(matches!(client.state, PlayerState::InDuel { star: 2, .. }));
}

#[test]
fn finished_update_for_a_winner() {
    let (mut client, _) = Client::new(100, 30);
    let message = HostMessage::Update {
        game_state: GameState::Finished { winners: vec![info(1, "me", 6)] },
        player_state: PlayerState::Winning { star: 6 },
        player_logs: Vec::new(),
    };
    let lines = client.handle_message(message);
    assert!(lines[20].text.starts_with("Game Over"));
    assert!(lines[21].text.starts_with("Final Results:"));
    let n = lines.len();
    assert!(lines[n - 3].text.starts_with("You Win!"));
    assert!(lines[n - 2].text.starts_with("You collected 6 star"));
    assert_eq!(lines[n - 1].text, " ".repeat(100));
}

#[test]
fn losing_and_resting_updates() {
    let (mut client, _) = Client::new(100, 30);
    let lines = client.handle_message(HostMessage::Update {
        game_state: GameState::Finished { winners: Vec::new() },
        player_state: PlayerState::Losing,
        player_logs: Vec::new(),
    });
    let n = lines.len();
    assert!(lines[n - 3].text.starts_with("You Lose"));
    assert!(lines[n - 2].text.starts_with("Better luck next time!"));
    let lines = client.handle_message(HostMessage::Update {
        game_state: GameState::Finished { winners: Vec::new() },
        player_state: PlayerState::Resting { star: 1, playable_card_count: count(0, 0, 0), remaining_secs: 12 },
        player_logs: Vec::new(),
    });
    let n = lines.len();
    assert!(lines[n - 1].text.starts_with("Ready for the next duel? [Y] Yes | 12s"));
    let lines = client.handle_message(HostMessage::Update {
        game_state: GameState::Finished { winners: Vec::new() },
        player_state: PlayerState::Waiting { star: 3, playable_card_count: count(0, 0, 0) },
        player_logs: Vec::new(),
    });
    let n = lines.len();
    assert!(lines[n - 1].text.starts_with("Waiting for other players to duel..."));
    assert!(lines[n - 3].text.starts_with("Stars:⭐⭐⭐ | Your Cards:"));
}

#[test]
fn typed_lines_become_messages() {
    let (mut client, _) = Client::new(100, 30);
    assert!(matches!(client.on_key(KeyResult::Submitted("Y".to_string())), Some(ClientMessage::SetReady(true))));
    assert!(matches!(client.on_key(KeyResult::Submitted("n".to_string())), Some(ClientMessage::SetReady(false))));
    assert!(client.on_key(KeyResult::Submitted("maybe".to_string())).is_none());

    client.state = PlayerState::InDuel {
        star: 1,
        playable_card_count: count(0, 2, 1),
        opponent_name: "bob".to_string(),
        remaining_secs: 3,
    };
    assert!(client.on_key(KeyResult::Submitted("r".to_string())).is_none());
    assert!(matches!(
        client.on_key(KeyResult::Submitted("P".to_string())),
        Some(ClientMessage::ChooseCardToPlay(Card::Paper))
    ));
    assert!(matches!(
        client.on_key(KeyResult::Submitted("s".to_string())),
        Some(ClientMessage::ChooseCardToPlay(Card::Scissors))
    ));

    client.state = PlayerState::Resting { star: 1, playable_card_count: count(0, 0, 0), remaining_secs: 3 };
    assert!(matches!(client.on_key(KeyResult::Submitted("y".to_string())), Some(ClientMessage::ReadyForNextDuel)));

    client.state = PlayerState::Losing;
    assert!(client.on_key(KeyResult::Submitted("y".to_string())).is_none());
    assert!(!client.is_quit);
    assert!(matches!(client.on_key(KeyResult::Exit), Some(ClientMessage::Disconnect)));
    assert!(client.is_quit);
}
