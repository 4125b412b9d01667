use gentei_janken::game::card::Card;
use gentei_janken::network::host::{Host, HostAction};
use gentei_janken::network::player_connection::PeerAddr;
use gentei_janken::network::protocol::ClientMessage;

fn addr(port: u16) -> PeerAddr {
    PeerAddr::V4 { ip: 0x7f00_0001, port }
}

fn join(host: &mut Host, name: &str, port: u16) -> HostAction {
    host.handle_message(ClientMessage::Join { player_name: name.to_string() }, addr(port))
}

#[test]
fn join_gives_ids_in_order_and_logs() {
    let mut host = Host::new();
    assert!(matches!(join(&mut host, "alice", 1), HostAction::AddPlayer { id: 0, ref name } if name == "alice"));
    assert!(matches!(join(&mut host, "bob", 2), HostAction::AddPlayer { id: 1, ref name } if name == "bob"));
    assert_eq!(host.next_player_id, 2);
    assert_eq!(host.connections.len(), 2);
    assert!(!host.connections[0].ready_to_start);
    assert_eq!(host.logs, vec!["alice has joined".to_string(), "bob has joined".to_string()]);
}

#[test]
fn join_from_a_known_address_is_ignored() {
    let mut host = Host::new();
    join(&mut host, "alice", 1);
    assert!(matches!(join(&mut host, "again", 1), HostAction::Ignored));
    assert_eq!(host.connections.len(), 1);
    assert_eq!(host.next_player_id, 1);
    assert_eq!(host.logs.len(), 1);
}

#[test]
fn game_starts_when_every_client_is_ready() {
    let mut host = Host::new();
    join(&mut host, "alice", 1);
    join(&mut host, "bob", 2);
    assert!(matches!(host.handle_message(ClientMessage::SetReady(true), addr(2)), HostAction::Ignored));
    assert!(host.connections[1].ready_to_start);
    match host.handle_message(ClientMessage::SetReady(true), addr(1)) {
        HostAction::StartGame { player_ids, max_players } => {
            assert_eq!(player_ids, vec![0, 1]);
            assert_eq!(max_players, 20);
        }
        _ => panic!("every client is ready"),
    }
    assert!(host.connections.iter().all(|c| !c.ready_to_start));
    assert_eq!(host.logs.last().unwrap(), "Game has started!");
}

#[test]
fn unready_client_holds_the_start() {
    let mut host = Host::new();
    join(&mut host, "alice", 1);
    assert!(host.set_ready(addr(1), false).is_none());
    assert!(!host.connections[0].ready_to_start);
    assert_eq!(host.logs.len(), 1);
}

#[test]
fn ready_from_an_unknown_address_starts_an_empty_room() {
    let mut host = Host::new();
    assert_eq!(host.set_ready(addr(9), true), Some(Vec::new()));
    assert_eq!(host.logs, vec!["Game has started!".to_string()]);
}

#[test]
fn disconnect_forgets_the_client() {
    let mut host = Host::new();
    join(&mut host, "alice", 1);
    join(&mut host, "bob", 2);
    assert!(matches!(host.handle_message(ClientMessage::Disconnect, addr(1)), HostAction::RemovePlayer(0)));
    assert_eq!(host.connections.len(), 1);
    assert_eq!(host.connections[0].id, 1);
    assert!(matches!(host.handle_message(ClientMessage::Disconnect, addr(1)), HostAction::Ignored));
    assert_eq!(host.next_player_id, 2);
}

#[test]
fn choices_and_rests_go_to_the_player_of_the_client() {
    let mut host = Host::new();
    join(&mut host, "alice", 1);
    join(&mut host, "bob", 2);
    assert!(matches!(
        host.handle_message(ClientMessage::ChooseCardToPlay(Card::Paper), addr(2)),
        HostAction::ForwardCard(1, Card::Paper)
    ));
    assert!(matches!(host.handle_message(ClientMessage::ReadyForNextDuel, addr(1)), HostAction::FinishResting(0)));
    assert!(matches!(
        host.handle_message(ClientMessage::ChooseCardToPlay(Card::Rock), addr(3)),
        HostAction::Ignored
    ));
    assert!(matches!(host.handle_message(ClientMessage::ReadyForNextDuel, addr(3)), HostAction::Ignored));
    assert_eq!(host.logs.len(), 2);
}

#[test]
fn ipv4_and_mapped_ipv6_addresses_are_different_clients() {
    let mut host = Host::new();
    join(&mut host, "v4", 1);
    let mapped = PeerAddr::V6 { ip: 0x0000_0000_0000_0000_0000_ffff_7f00_0001, port: 1, flowinfo: 0, scope_id: 0 };
    let action = host.handle_message(ClientMessage::Join { player_name: "v6".to_string() }, mapped);
    assert!(matches!(action, HostAction::AddPlayer { id: 1, .. }));
    let scoped = PeerAddr::V6 { ip: 0x0000_0000_0000_0000_0000_ffff_7f00_0001, port: 1, flowinfo: 0, scope_id: 3 };
    assert!(host.player_join(scoped));
    assert!(!host.player_join(mapped));
    assert_eq!(host.connections.len(), 3);
}
