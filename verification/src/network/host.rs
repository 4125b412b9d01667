//! The host's record of its clients: who joined from which address, who is
//! ready to start, and the log lines for all players. Each message from a
//! client changes the record and tells the caller what to do with the game.

use vstd::prelude::*;
use crate::game::card::Card;
use crate::network::player_connection::{PeerAddr, PlayerConnection, same_addr};
use crate::network::protocol::ClientMessage;

verus! {

broadcast use vstd::string::group_string_axioms;

/// The clients of the host, the id that the next client gets, and the log
/// lines for all players.
pub struct Host {
    pub connections: Vec<PlayerConnection>,
    pub next_player_id: usize,
    pub logs: Vec<String>,
}

/// What the caller does with the game after a message.
pub enum HostAction {
    /// Nothing: the message changed nothing in the game.
    Ignored,
    /// A client joined: the game gains a player with this id and name.
    AddPlayer { id: usize, name: String },
    /// Every client is ready: the game keeps the players of these ids, is
    /// filled with bots up to `max_players` players, and starts.
    StartGame { player_ids: Vec<usize>, max_players: usize },
    /// The player with this id left.
    RemovePlayer(usize),
    /// The player with this id is ready for its next duel.
    FinishResting(usize),
    /// The player with this id chose this card.
    ForwardCard(usize, Card),
}

/// The number of players up to which a starting game is filled with bots.
pub const MAX_PLAYERS: usize = 20;

/// Some connection comes from `addr`.
pub open spec fn knows(conns: Seq<PlayerConnection>, addr: PeerAddr) -> bool {
    exists|i: int| 0 <= i < conns.len() && #[trigger] conns[i].addr == addr
}

/// `c` with its ready flag set to `ready`.
pub open spec fn with_ready(c: PlayerConnection, ready: bool) -> PlayerConnection {
    PlayerConnection { id: c.id, addr: c.addr, ready_to_start: ready }
}

/// The connections with the flag of the one from `addr` set to `ready`.
pub open spec fn marked(conns: Seq<PlayerConnection>, addr: PeerAddr, ready: bool) -> Seq<PlayerConnection> {
    conns.map_values(|c: PlayerConnection| if c.addr == addr { with_ready(c, ready) } else { c })
}

/// Every connection is ready to start; so are none at all.
pub open spec fn all_ready(conns: Seq<PlayerConnection>) -> bool {
    forall|i: int| 0 <= i < conns.len() ==> #[trigger] conns[i].ready_to_start
}

/// `after` is `before` with one more line, `line`, at its end.
pub open spec fn logged(before: Seq<String>, after: Seq<String>, line: Seq<char>) -> bool {
    &&& after.len() == before.len() + 1
    &&& after.drop_last() == before
    &&& after.last()@ == line
}

/// The log line for a player who joined.
pub open spec fn join_line(name: Seq<char>) -> Seq<char> {
    name + " has joined"@
}

/// The log line when the game starts.
pub open spec fn start_line() -> Seq<char> {
    "Game has started!"@
}

/// What a join from `addr` does to the connections: nothing when the address
/// is known, and otherwise a new connection, not ready, under the next id.
pub open spec fn join_outcome(before: Host, after: Host, addr: PeerAddr, joined: bool) -> bool {
    if knows(before.connections@, addr) {
        &&& !joined
        &&& after.connections@ == before.connections@
        &&& after.next_player_id == before.next_player_id
    } else {
        &&& joined
        &&& after.connections@ == before.connections@.push(
            PlayerConnection { id: before.next_player_id, addr, ready_to_start: false },
        )
        &&& after.next_player_id == before.next_player_id + 1
    }
}

/// What setting the ready flag of `addr` to `ready` does: the flag is set;
/// when then every connection is ready, all flags are cleared, the game starts
/// with the ids of all connections in their order, and the start is logged.
pub open spec fn ready_outcome(
    before: Host,
    after: Host,
    addr: PeerAddr,
    ready: bool,
    started: Option<Seq<usize>>,
) -> bool {
    let m = marked(before.connections@, addr, ready);
    &&& after.next_player_id == before.next_player_id
    &&& if all_ready(m) {
        &&& started == Some(m.map_values(|c: PlayerConnection| c.id))
        &&& after.connections@ == m.map_values(|c: PlayerConnection| with_ready(c, false))
        &&& logged(before.logs@, after.logs@, start_line())
    } else {
        &&& started is None
        &&& after.connections@ == m
        &&& after.logs@ == before.logs@
    }
}

/// What a disconnection from `addr` does: the connection from `addr`, if any,
/// goes, and its id is `removed`.
pub open spec fn disconnect_outcome(before: Host, after: Host, addr: PeerAddr, removed: Option<usize>) -> bool {
    &&& after.next_player_id == before.next_player_id
    &&& after.logs@ == before.logs@
    &&& match removed {
        Some(id) => exists|i: int|
            0 <= i < before.connections.len() && #[trigger] before.connections@[i].addr == addr && id
                == before.connections@[i].id && after.connections@ == before.connections@.remove(i),
        None => !knows(before.connections@, addr) && after.connections@ == before.connections@,
    }
}

/// `after` is `before` unchanged.
pub open spec fn same_host(before: Host, after: Host) -> bool {
    &&& after.connections@ == before.connections@
    &&& after.next_player_id == before.next_player_id
    &&& after.logs@ == before.logs@
}

/// The player from `addr` has the given id.
pub open spec fn id_at(conns: Seq<PlayerConnection>, addr: PeerAddr, id: usize) -> bool {
    exists|i: int| 0 <= i < conns.len() && #[trigger] conns[i].addr == addr && conns[i].id == id
}

/// Where the connection from `addr` stands, if any.
fn position_of(conns: &Vec<PlayerConnection>, addr: PeerAddr) -> (r: Option<usize>)
    ensures
        match r {
            Some(i) => i < conns.len() && conns@[i as int].addr == addr,
            None => !knows(conns@, addr),
        },
{
    for i in 0..conns.len()
        invariant
            forall|j: int| 0 <= j < i ==> #[trigger] conns@[j].addr != addr,
    {
        if same_addr(&conns[i].addr, &addr) {
            return Some(i);
        }
    }
    None
}

impl Host {
    /// No two connections share an address or an id, and every id was given
    /// out before.
    pub open spec fn wf(&self) -> bool {
        &&& forall|i: int, j: int|
            #![trigger self.connections@[i], self.connections@[j]]
            0 <= i < j < self.connections.len() ==> self.connections@[i].addr != self.connections@[j].addr
                && self.connections@[i].id != self.connections@[j].id
        &&& forall|i: int|
            0 <= i < self.connections.len() ==> #[trigger] self.connections@[i].id < self.next_player_id
    }

    /// A host without clients or log lines.
    pub fn new() -> (r: Host)
        ensures
            r.wf(),
            r.connections@ == Seq::<PlayerConnection>::empty(),
            r.next_player_id == 0,
            r.logs@ == Seq::<String>::empty(),
    {
        Host { connections: Vec::new(), next_player_id: 0, logs: Vec::new() }
    }

    /// Records a client that joins from `addr`, unless one already joined
    /// from there; tells whether it joined.
    pub fn player_join(&mut self, addr: PeerAddr) -> (joined: bool)
        requires
            old(self).wf(),
            !knows(old(self).connections@, addr) ==> old(self).next_player_id < usize::MAX,
        ensures
            final(self).wf(),
            join_outcome(*old(self), *final(self), addr, joined),
            final(self).logs@ == old(self).logs@,
    {
        if let Some(_) = position_of(&self.connections, addr) {
            return false;
        }
        let id = self.next_player_id;
        self.next_player_id += 1;
        self.connections.push(PlayerConnection { id, addr, ready_to_start: false });
        true
    }

    /// Sets the ready flag of the client from `addr`; when every client is
    /// then ready, clears all flags, logs the start and returns the ids of
    /// the players with whom the game starts.
    pub fn set_ready(&mut self, addr: PeerAddr, is_ready: bool) -> (started: Option<Vec<usize>>)
        requires
            old(self).wf(),
        ensures
            final(self).wf(),
            ready_outcome(
                *old(self),
                *final(self),
                addr,
                is_ready,
                match started {
                    Some(ids) => Some(ids@),
                    None => None,
                },
            ),
    {
        let ghost before = self.connections@;
        let ghost m = marked(before, addr, is_ready);
        if let Some(i) = position_of(&self.connections, addr) {
            let c = self.connections[i];
            self.connections.set(i, PlayerConnection { id: c.id, addr: c.addr, ready_to_start: is_ready });
            proof {
                assert forall|j: int| 0 <= j < before.len() && j != i implies #[trigger] before[j].addr != addr by {
                    if j < i {
                        assert(before[j].addr != before[i as int].addr);
                    } else {
                        assert(before[i as int].addr != before[j].addr);
                    }
                }
            }
        }
        assert(self.connections@ =~= m);
        let n = self.connections.len();
        let mut every_ready = true;
        for i in 0..n
            invariant
                n == self.connections.len(),
                self.connections@ == m,
                every_ready <==> forall|j: int| 0 <= j < i ==> #[trigger] m[j].ready_to_start,
        {
            if !self.connections[i].ready_to_start {
                every_ready = false;
            }
        }
        if every_ready {
            let mut ids: Vec<usize> = Vec::new();
            let mut cleared: Vec<PlayerConnection> = Vec::new();
            for i in 0..n
                invariant
                    n == self.connections.len(),
                    self.connections@ == m,
                    ids.len() == i,
                    cleared.len() == i,
                    forall|j: int| 0 <= j < i ==> #[trigger] ids@[j] == m[j].id,
                    forall|j: int| 0 <= j < i ==> #[trigger] cleared@[j] == with_ready(m[j], false),
            {
                let c = self.connections[i];
                ids.push(c.id);
                cleared.push(PlayerConnection { id: c.id, addr: c.addr, ready_to_start: false });
            }
            self.connections = cleared;
            self.logs.push("Game has started!".to_owned());
            proof {
                assert(ids@ =~= m.map_values(|c: PlayerConnection| c.id));
                assert(self.connections@ =~= m.map_values(|c: PlayerConnection| with_ready(c, false)));
                assert(self.logs@.drop_last() =~= old(self).logs@);
            }
            Some(ids)
        } else {
            None
        }
    }

    /// Forgets the client from `addr`; returns its id when it was known.
    pub fn disconnect(&mut self, addr: PeerAddr) -> (removed: Option<usize>)
        requires
            old(self).wf(),
        ensures
            final(self).wf(),
            disconnect_outcome(*old(self), *final(self), addr, removed),
    {
        let ghost before = self.connections@;
        match position_of(&self.connections, addr) {
            Some(i) => {
                let c = self.connections.remove(i);
                proof {
                    assert(before[i as int].addr == addr);
                    assert forall|a: int, b: int|
                        #![trigger self.connections@[a], self.connections@[b]]
                        0 <= a < b < self.connections.len() implies self.connections@[a].addr
                            != self.connections@[b].addr && self.connections@[a].id
                            != self.connections@[b].id by {
                        let a0 = if a < i { a } else { a + 1 };
                        let b0 = if b < i { b } else { b + 1 };
                        assert(self.connections@[a] == before[a0]);
                        assert(self.connections@[b] == before[b0]);
                        assert(before[a0] == before[a0] && before[b0] == before[b0]);
                    }
                }
                Some(c.id)
            },
            None => None,
        }
    }

    /// The id of the client from `addr`, if it is known.
    fn id_of(&self, addr: PeerAddr) -> (r: Option<usize>)
        ensures
            match r {
                Some(id) => id_at(self.connections@, addr, id),
                None => !knows(self.connections@, addr),
            },
    {
        match position_of(&self.connections, addr) {
            Some(i) => Some(self.connections[i].id),
            None => None,
        }
    }

    /// Handles a message from the client at `addr`: a join is recorded and
    /// logged, a ready flag is set and may start the game, a disconnection
    /// forgets the client, and a choice of card or the end of a rest is handed
    /// on for the player of that client. Messages from unknown clients change
    /// nothing, but for a join.
    pub fn handle_message(&mut self, message: ClientMessage, addr: PeerAddr) -> (action: HostAction)
        requires
            old(self).wf(),
            message is Join && !knows(old(self).connections@, addr) ==> old(self).next_player_id < usize::MAX,
        ensures
            final(self).wf(),
            match message {
                ClientMessage::Join { player_name } => if knows(old(self).connections@, addr) {
                    action is Ignored && same_host(*old(self), *final(self))
                } else {
                    &&& join_outcome(*old(self), *final(self), addr, true)
                    &&& logged(old(self).logs@, final(self).logs@, join_line(player_name@))
                    &&& action matches HostAction::AddPlayer { id, name } && id == old(self).next_player_id
                        && name@ == player_name@
                },
                ClientMessage::SetReady(ready) => {
                    &&& action is Ignored || (action matches HostAction::StartGame { max_players, .. }
                        && max_players == MAX_PLAYERS)
                    &&& ready_outcome(
                        *old(self),
                        *final(self),
                        addr,
                        ready,
                        match action {
                            HostAction::StartGame { player_ids, .. } => Some(player_ids@),
                            _ => None,
                        },
                    )
                },
                ClientMessage::Disconnect => {
                    &&& action is Ignored || action is RemovePlayer
                    &&& disconnect_outcome(
                        *old(self),
                        *final(self),
                        addr,
                        match action {
                            HostAction::RemovePlayer(id) => Some(id),
                            _ => None,
                        },
                    )
                },
                ClientMessage::ReadyForNextDuel => {
                    &&& same_host(*old(self), *final(self))
                    &&& match action {
                        HostAction::FinishResting(id) => id_at(old(self).connections@, addr, id),
                        HostAction::Ignored => !knows(old(self).connections@, addr),
                        _ => false,
                    }
                },
                ClientMessage::ChooseCardToPlay(card) => {
                    &&& same_host(*old(self), *final(self))
                    &&& match action {
                        HostAction::ForwardCard(id, c) => c == card && id_at(old(self).connections@, addr, id),
                        HostAction::Ignored => !knows(old(self).connections@, addr),
                        _ => false,
                    }
                },
            },
    {
        match message {
            ClientMessage::Join { player_name } => {
                let id = self.next_player_id;
                if self.player_join(addr) {
                    let mut line = player_name.clone();
                    line.append(" has joined");
                    self.logs.push(line);
                    proof {
                        assert(self.logs@.drop_last() =~= old(self).logs@);
                    }
                    HostAction::AddPlayer { id, name: player_name }
                } else {
                    HostAction::Ignored
                }
            },
            ClientMessage::SetReady(is_ready) => match self.set_ready(addr, is_ready) {
                Some(ids) => HostAction::StartGame { player_ids: ids, max_players: MAX_PLAYERS },
                None => HostAction::Ignored,
            },
            ClientMessage::Disconnect => match self.disconnect(addr) {
                Some(id) => HostAction::RemovePlayer(id),
                None => HostAction::Ignored,
            },
            ClientMessage::ReadyForNextDuel => match self.id_of(addr) {
                Some(id) => HostAction::FinishResting(id),
                None => HostAction::Ignored,
            },
            ClientMessage::ChooseCardToPlay(card) => match self.id_of(addr) {
                Some(id) => HostAction::ForwardCard(id, card),
                None => HostAction::Ignored,
            },
        }
    }
}

} // verus!
