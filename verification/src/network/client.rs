//! The client: what its screen shows for each update from the host, and what
//! it sends for each line the player types.

use vstd::prelude::*;
use crate::game::CardCount;
use crate::game::card::Card;
use crate::game::state::{GameState, PlayerInfo, PlayerState};
use crate::network::protocol::{ClientMessage, HostMessage};
use crate::text::{decimal, decimal_string, lowercase, to_lowercase};
use crate::ui::{
    KeyResult, PlayerDisplay, ScreenLine, TermRegion, TermUi, draws_players, keep_last, repeat_str,
    repeated, screen_fits, shown, shown_players, writes,
};

verus! {

broadcast use vstd::string::group_string_axioms;

/// The mark after the name of the client's own player.
pub open spec fn you_mark(id: usize) -> Seq<char> {
    if id == 1 {
        " [You]"@
    } else {
        Seq::empty()
    }
}

/// A player in the waiting room: a green light when ready, a red one when not.
pub open spec fn room_row(info: PlayerInfo) -> (Seq<char>, Seq<char>) {
    (info.name@, (if info.status == 1 { "🟢"@ } else { "🔴"@ }) + you_mark(info.id))
}

/// A player in the game: a star for each of its stars.
pub open spec fn star_row(info: PlayerInfo) -> (Seq<char>, Seq<char>) {
    (info.name@, repeated("⭐"@, info.status as nat) + you_mark(info.id))
}

/// How many players of the room are ready.
pub open spec fn ready_count(infos: Seq<PlayerInfo>) -> nat
    decreases infos.len(),
{
    if infos.len() == 0 {
        0
    } else {
        ready_count(infos.drop_last()) + if infos.last().status == 1 { 1nat } else { 0nat }
    }
}

/// The playable cards, kind by kind.
pub open spec fn count_text(c: CardCount) -> Seq<char> {
    "✊:"@ + decimal(c.rock as nat) + " | ✋:"@ + decimal(c.paper as nat) + " | ✌️:"@ + decimal(c.scissors as nat)
}

/// The rows that a player list of `count` players takes in `region`.
pub open spec fn list_len(region: TermRegion, count: int) -> int {
    region.height + 2 + shown_players(region.height as int, count)
}

/// `lines` show the state of the game.
pub open spec fn shows_game(ui: TermUi, game_state: GameState, lines: Seq<ScreenLine>) -> bool {
    let l = ui.layout;
    match game_state {
        GameState::Waiting { player_infos } => {
            let infos = player_infos@;
            let n = list_len(l.players_l, infos.len() as int);
            &&& lines.len() == 2 + n
            &&& writes(lines[0], l.title, 0, "Room"@)
            &&& writes(lines[1], l.subtitle, 0, "Waiting for players..."@)
            &&& draws_players(
                l.players_l,
                "Players ("@ + decimal(ready_count(infos)) + "/"@ + decimal(infos.len()) + "): "@,
                infos.map_values(|i: PlayerInfo| room_row(i)),
                lines.subrange(2, 2 + n),
            )
        },
        GameState::Playing { remaining_players, winners, playable_card_count } => {
            let n1 = list_len(l.players_l, winners@.len() as int);
            let n2 = list_len(l.players_r, remaining_players@.len() as int);
            &&& lines.len() == 2 + n1 + n2
            &&& writes(lines[0], l.title, 0, "Playable Cards:"@)
            &&& writes(lines[1], l.subtitle, 0, count_text(playable_card_count))
            &&& draws_players(
                l.players_l,
                "Winners: "@,
                winners@.map_values(|i: PlayerInfo| star_row(i)),
                lines.subrange(2, 2 + n1),
            )
            &&& draws_players(
                l.players_r,
                "Remaining Players: "@,
                remaining_players@.map_values(|i: PlayerInfo| star_row(i)),
                lines.subrange(2 + n1, 2 + n1 + n2),
            )
        },
        GameState::Finished { winners } => {
            let n = list_len(l.players_l, winners@.len() as int);
            &&& lines.len() == 2 + n
            &&& writes(lines[0], l.title, 0, "Game Over"@)
            &&& writes(lines[1], l.subtitle, 0, "Final Results:"@)
            &&& draws_players(
                l.players_l,
                "Winners: "@,
                winners@.map_values(|i: PlayerInfo| star_row(i)),
                lines.subrange(2, 2 + n),
            )
        },
    }
}

/// `lines` show the stars and the playable cards of the player at the bottom.
pub open spec fn shows_stats(ui: TermUi, star: usize, count: CardCount, lines: Seq<ScreenLine>) -> bool {
    &&& lines.len() == 2
    &&& writes(lines[0], ui.layout.title2, 0, "Stars:"@ + repeated("⭐"@, star as nat) + " | Your Cards:"@)
    &&& writes(lines[1], ui.layout.subtitle2, 0, count_text(count))
}

/// `lines` show the state of the client's player.
pub open spec fn shows_player(ui: TermUi, state: PlayerState, lines: Seq<ScreenLine>) -> bool {
    let l = ui.layout;
    match state {
        PlayerState::Joined => lines.len() == 1 && writes(lines[0], l.instruction, 0, "Ready: [Y] Yes, [N] No"@),
        PlayerState::Waiting { star, playable_card_count } => {
            &&& lines.len() == 3
            &&& shows_stats(ui, star, playable_card_count, lines.take(2))
            &&& writes(lines[2], l.instruction, 0, "Waiting for other players to duel..."@)
        },
        PlayerState::InDuel { star, playable_card_count, opponent_name, remaining_secs } => {
            &&& lines.len() == 3
            &&& shows_stats(ui, star, playable_card_count, lines.take(2))
            &&& writes(
                lines[2],
                l.instruction,
                0,
                "Duel vs "@ + opponent_name@ + " | Choose Card: [R]✊, [P]✋, [S]✌️ | Time: "@
                    + decimal(remaining_secs as nat) + "s"@,
            )
        },
        PlayerState::Resting { star, playable_card_count, remaining_secs } => {
            &&& lines.len() == 3
            &&& shows_stats(ui, star, playable_card_count, lines.take(2))
            &&& writes(
                lines[2],
                l.instruction,
                0,
                "Ready for the next duel? [Y] Yes | "@ + decimal(remaining_secs as nat) + "s"@,
            )
        },
        PlayerState::Winning { star } => {
            &&& lines.len() == 3
            &&& writes(lines[0], l.title2, 0, "You Win!"@)
            &&& writes(lines[1], l.subtitle2, 0, "You collected "@ + decimal(star as nat) + " star"@)
            &&& writes(lines[2], l.instruction, 0, Seq::<char>::empty())
        },
        PlayerState::Losing => {
            &&& lines.len() == 3
            &&& writes(lines[0], l.title2, 0, "You Lose"@)
            &&& writes(lines[1], l.subtitle2, 0, "Better luck next time!"@)
            &&& writes(lines[2], l.instruction, 0, Seq::<char>::empty())
        },
    }
}

/// What the client sends when its player types `line` (in lowercase) in `state`.
pub open spec fn reply(state: PlayerState, line: Seq<char>) -> Option<ClientMessage> {
    match state {
        PlayerState::Joined => if line == "y"@ {
            Some(ClientMessage::SetReady(true))
        } else if line == "n"@ {
            Some(ClientMessage::SetReady(false))
        } else {
            None
        },
        PlayerState::InDuel { playable_card_count, .. } => if line == "r"@ && playable_card_count.rock > 0 {
            Some(ClientMessage::ChooseCardToPlay(Card::Rock))
        } else if line == "p"@ && playable_card_count.paper > 0 {
            Some(ClientMessage::ChooseCardToPlay(Card::Paper))
        } else if line == "s"@ && playable_card_count.scissors > 0 {
            Some(ClientMessage::ChooseCardToPlay(Card::Scissors))
        } else {
            None
        },
        PlayerState::Resting { .. } => if line == "y"@ {
            Some(ClientMessage::ReadyForNextDuel)
        } else {
            None
        },
        _ => None,
    }
}

/// A client: its screen, whether it quits, and the state of its player.
pub struct Client {
    pub term_ui: TermUi,
    pub is_quit: bool,
    pub state: PlayerState,
}

/// The playable cards, kind by kind.
fn card_count_text(count: &CardCount) -> (r: String)
    ensures
        r@ == count_text(*count),
{
    let mut r = String::from_str("✊:");
    r.append(decimal_string(count.rock as u64).as_str());
    r.append(" | ✋:");
    r.append(decimal_string(count.paper as u64).as_str());
    r.append(" | ✌️:");
    r.append(decimal_string(count.scissors as u64).as_str());
    r
}

/// The players of the waiting room as shown, and how many are ready.
fn room_rows(infos: &Vec<PlayerInfo>) -> (r: (Vec<PlayerDisplay>, usize))
    ensures
        shown(r.0@) == infos@.map_values(|i: PlayerInfo| room_row(i)),
        r.1 == ready_count(infos@),
{
    let mut rows: Vec<PlayerDisplay> = Vec::new();
    let mut ready_count_so_far: usize = 0;
    for k in 0..infos.len()
        invariant
            shown(rows@) == infos@.take(k as int).map_values(|i: PlayerInfo| room_row(i)),
            ready_count_so_far == ready_count(infos@.take(k as int)),
            ready_count_so_far <= k,
    {
        let info = &infos[k];
        let mut status = if info.status == 1 {
            ready_count_so_far += 1;
            String::from_str("🟢")
        } else {
            String::from_str("🔴")
        };
        if info.id == 1 {
            status.append(" [You]");
        }
        proof {
            assert(infos@.take(k + 1).drop_last() =~= infos@.take(k as int));
        }
        let ghost prev = rows@;
        let name = info.name.clone();
        let ghost row = (name@, status@);
        assert(row == room_row(infos@[k as int]));
        rows.push(PlayerDisplay { name, status });
        proof {
            assert(shown(rows@) =~= shown(prev).push(row));
            assert(infos@.take(k + 1).map_values(|i: PlayerInfo| room_row(i)) =~= infos@.take(k as int).map_values(
                |i: PlayerInfo| room_row(i),
            ).push(room_row(infos@[k as int])));
        }
    }
    proof {
        assert(infos@.take(infos.len() as int) =~= infos@);
    }
    (rows, ready_count_so_far)
}

/// The players of the game as shown, with their stars.
fn star_rows(infos: &Vec<PlayerInfo>) -> (r: Vec<PlayerDisplay>)
    ensures
        shown(r@) == infos@.map_values(|i: PlayerInfo| star_row(i)),
{
    let mut rows: Vec<PlayerDisplay> = Vec::new();
    for k in 0..infos.len()
        invariant
            shown(rows@) == infos@.take(k as int).map_values(|i: PlayerInfo| star_row(i)),
    {
        let info = &infos[k];
        let mut status = repeat_str("⭐", info.status);
        if info.id == 1 {
            status.append(" [You]");
        }
        let ghost prev = rows@;
        let name = info.name.clone();
        let ghost row = (name@, status@);
        assert(row == star_row(infos@[k as int]));
        rows.push(PlayerDisplay { name, status });
        proof {
            assert(shown(rows@) =~= shown(prev).push(row));
            assert(infos@.take(k + 1).map_values(|i: PlayerInfo| star_row(i)) =~= infos@.take(k as int).map_values(
                |i: PlayerInfo| star_row(i),
            ).push(star_row(infos@[k as int])));
        }
    }
    proof {
        assert(infos@.take(infos.len() as int) =~= infos@);
    }
    rows
}

impl Client {
    /// A client with a screen of `width` by `height`, whose player has just
    /// joined, and the lines that draw the empty screen.
    pub fn new(width: u16, height: u16) -> (r: (Client, Vec<ScreenLine>))
        requires
            screen_fits(width, height),
        ensures
            r.0.term_ui.wf(),
            r.0.term_ui.width == width,
            r.0.term_ui.height == height,
            r.0.term_ui.log_buffer@.len() == 0,
            r.0.term_ui.input_buffer@ == Seq::<char>::empty(),
            r.0.term_ui.draws_frame(r.1@),
            !r.0.is_quit,
            r.0.state is Joined,
    {
        let (term_ui, lines) = TermUi::new(width, height);
        (Client { term_ui, is_quit: false, state: PlayerState::Joined }, lines)
    }

    /// Shows the stars and the playable cards of the player at the bottom.
    pub fn set_player_stats(term_ui: &TermUi, star: usize, playable_card_count: &CardCount) -> (lines: Vec<ScreenLine>)
        ensures
            shows_stats(*term_ui, star, *playable_card_count, lines@),
    {
        let star_str = repeat_str("⭐", star);
        let mut title = String::from_str("Stars:");
        title.append(star_str.as_str());
        title.append(" | Your Cards:");
        let mut lines = Vec::new();
        lines.push(term_ui.set_bot_title(title.as_str()));
        let card_count_desc = card_count_text(playable_card_count);
        lines.push(term_ui.set_bot_subtitle(card_count_desc.as_str()));
        lines
    }

    /// The lines that show the state of the game.
    fn show_game(term_ui: &TermUi, game_state: &GameState) -> (lines: Vec<ScreenLine>)
        requires
            term_ui.wf(),
            term_ui.layout.players_l.height >= 2,
        ensures
            shows_game(*term_ui, *game_state, lines@),
    {
        let mut lines: Vec<ScreenLine> = Vec::new();
        match game_state {
            GameState::Waiting { player_infos } => {
                let (players_display, ready_count) = room_rows(player_infos);
                lines.push(term_ui.set_top_title("Room"));
                lines.push(term_ui.set_top_subtitle("Waiting for players..."));
                let mut players_title = String::from_str("Players (");
                players_title.append(decimal_string(ready_count as u64).as_str());
                players_title.append("/");
                players_title.append(decimal_string(players_display.len() as u64).as_str());
                players_title.append("): ");
                let mut list = term_ui.set_players_l(players_title.as_str(), players_display.as_slice());
                let ghost list_lines = list@;
                lines.append(&mut list);
                proof {
                    assert(lines@.subrange(2, lines@.len() as int) =~= list_lines);
                }
            },
            GameState::Playing { remaining_players, winners, playable_card_count } => {
                lines.push(term_ui.set_top_title("Playable Cards:"));
                let card_count_desc = card_count_text(playable_card_count);
                lines.push(term_ui.set_top_subtitle(card_count_desc.as_str()));
                let winners_display = star_rows(winners);
                let mut left = term_ui.set_players_l("Winners: ", winners_display.as_slice());
                let ghost left_lines = left@;
                lines.append(&mut left);
                let players_display = star_rows(remaining_players);
                let mut right = term_ui.set_players_r("Remaining Players: ", players_display.as_slice());
                let ghost right_lines = right@;
                lines.append(&mut right);
                proof {
                    assert(lines@.subrange(2, 2 + left_lines.len() as int) =~= left_lines);
                    assert(lines@.subrange(2 + left_lines.len() as int, lines@.len() as int) =~= right_lines);
                }
            },
            GameState::Finished { winners } => {
                lines.push(term_ui.set_top_title("Game Over"));
                lines.push(term_ui.set_top_subtitle("Final Results:"));
                let winners_display = star_rows(winners);
                let mut list = term_ui.set_players_l("Winners: ", winners_display.as_slice());
                let ghost list_lines = list@;
                lines.append(&mut list);
                proof {
                    assert(lines@.subrange(2, lines@.len() as int) =~= list_lines);
                }
            },
        }
        lines
    }

    /// The lines that show the state of the client's player.
    fn show_player(term_ui: &TermUi, state: &PlayerState) -> (lines: Vec<ScreenLine>)
        ensures
            shows_player(*term_ui, *state, lines@),
    {
        let mut lines: Vec<ScreenLine> = Vec::new();
        proof {
            reveal_strlit("");
        }
        match state {
            PlayerState::Joined => {
                lines.push(term_ui.set_instruction("Ready: [Y] Yes, [N] No"));
            },
            PlayerState::Waiting { star, playable_card_count } => {
                lines = Self::set_player_stats(term_ui, *star, playable_card_count);
                let ghost stats = lines@;
                lines.push(term_ui.set_instruction("Waiting for other players to duel..."));
                assert(lines@.take(2) =~= stats);
            },
            PlayerState::InDuel { star, playable_card_count, opponent_name, remaining_secs } => {
                lines = Self::set_player_stats(term_ui, *star, playable_card_count);
                let mut instruction = String::from_str("Duel vs ");
                instruction.append(opponent_name.as_str());
                instruction.append(" | Choose Card: [R]✊, [P]✋, [S]✌️ | Time: ");
                instruction.append(decimal_string(*remaining_secs).as_str());
                instruction.append("s");
                let ghost stats = lines@;
                lines.push(term_ui.set_instruction(instruction.as_str()));
                assert(lines@.take(2) =~= stats);
            },
            PlayerState::Resting { star, playable_card_count, remaining_secs } => {
                lines = Self::set_player_stats(term_ui, *star, playable_card_count);
                let mut instruction = String::from_str("Ready for the next duel? [Y] Yes | ");
                instruction.append(decimal_string(*remaining_secs).as_str());
                instruction.append("s");
                let ghost stats = lines@;
                lines.push(term_ui.set_instruction(instruction.as_str()));
                assert(lines@.take(2) =~= stats);
            },
            PlayerState::Winning { star } => {
                lines.push(term_ui.set_bot_title("You Win!"));
                let mut subtitle = String::from_str("You collected ");
                subtitle.append(decimal_string(*star as u64).as_str());
                subtitle.append(" star");
                lines.push(term_ui.set_bot_subtitle(subtitle.as_str()));
                lines.push(term_ui.set_instruction(""));
            },
            PlayerState::Losing => {
                lines.push(term_ui.set_bot_title("You Lose"));
                lines.push(term_ui.set_bot_subtitle("Better luck next time!"));
                lines.push(term_ui.set_instruction(""));
            },
        }
        lines
    }

    /// Takes an update from the host: the new log messages go to the log,
    /// the state of the game and of the player are shown, and the player's
    /// state is kept. Returns the lines to draw, in order: the log, the game,
    /// the player.
    pub fn handle_message(&mut self, message: HostMessage) -> (lines: Vec<ScreenLine>)
        requires
            old(self).term_ui.wf(),
            old(self).term_ui.layout.players_l.height >= 2,
        ensures
            final(self).term_ui.wf(),
            final(self).term_ui.width == old(self).term_ui.width,
            final(self).term_ui.height == old(self).term_ui.height,
            final(self).term_ui.layout == old(self).term_ui.layout,
            final(self).term_ui.input_buffer@ == old(self).term_ui.input_buffer@,
            final(self).is_quit == old(self).is_quit,
            match message {
                HostMessage::Update { game_state, player_state, player_logs } => {
                    let log_height = old(self).term_ui.layout.log.height as int;
                    let n = lines@.len() - log_height;
                    let g = n - (if player_state is Joined { 1int } else { 3int });
                    &&& final(self).state == player_state
                    &&& final(self).term_ui.log_lines() == keep_last(
                        old(self).term_ui.log_lines() + player_logs@.map_values(|m: String| m@),
                        log_height as nat,
                    )
                    &&& lines@.len() >= log_height
                    &&& final(self).term_ui.draws_log(lines@.take(log_height))
                    &&& 0 <= g <= n
                    &&& shows_game(final(self).term_ui, game_state, lines@.subrange(log_height, log_height + g))
                    &&& shows_player(final(self).term_ui, player_state, lines@.subrange(log_height + g, lines@.len() as int))
                },
            },
    {
        match message {
            HostMessage::Update { game_state, player_state, player_logs } => {
                let mut lines = self.term_ui.push_logs(player_logs);
                let ghost log_lines = lines@;
                let mut game_lines = Self::show_game(&self.term_ui, &game_state);
                let ghost game_part = game_lines@;
                lines.append(&mut game_lines);
                self.state = player_state;
                let mut player_lines = Self::show_player(&self.term_ui, &self.state);
                let ghost player_part = player_lines@;
                lines.append(&mut player_lines);
                proof {
                    let h = log_lines.len() as int;
                    assert(lines@.take(h) =~= log_lines);
                    assert(lines@.subrange(h, h + game_part.len() as int) =~= game_part);
                    assert(lines@.subrange(h + game_part.len() as int, lines@.len() as int) =~= player_part);
                }
                lines
            },
        }
    }

    /// Takes what a key press completed and says what to send to the host:
    /// on exit, the client disconnects and quits; on a submitted line, the
    /// reply depends on the player's state and on the line in lowercase.
    pub fn on_key(&mut self, key_result: KeyResult) -> (r: Option<ClientMessage>)
        ensures
            final(self).term_ui == old(self).term_ui,
            final(self).state == old(self).state,
            match key_result {
                KeyResult::Exit => r == Some(ClientMessage::Disconnect) && final(self).is_quit,
                KeyResult::Submitted(input) => final(self).is_quit == old(self).is_quit && r == reply(
                    old(self).state,
                    lowercase(input@),
                ),
            },
    {
        match key_result {
            KeyResult::Exit => {
                self.is_quit = true;
                Some(ClientMessage::Disconnect)
            },
            KeyResult::Submitted(input) => {
                let line = to_lowercase(input.as_str());
                let y = String::from_str("y");
                let n = String::from_str("n");
                let r = String::from_str("r");
                let p = String::from_str("p");
                let s = String::from_str("s");
                match &self.state {
                    PlayerState::Joined => {
                        if line == y {
                            Some(ClientMessage::SetReady(true))
                        } else if line == n {
                            Some(ClientMessage::SetReady(false))
                        } else {
                            None
                        }
                    },
                    PlayerState::InDuel { playable_card_count, .. } => {
                        if line == r && playable_card_count.rock > 0 {
                            Some(ClientMessage::ChooseCardToPlay(Card::Rock))
                        } else if line == p && playable_card_count.paper > 0 {
                            Some(ClientMessage::ChooseCardToPlay(Card::Paper))
                        } else if line == s && playable_card_count.scissors > 0 {
                            Some(ClientMessage::ChooseCardToPlay(Card::Scissors))
                        } else {
                            None
                        }
                    },
                    PlayerState::Resting { .. } => {
                        if line == y {
                            Some(ClientMessage::ReadyForNextDuel)
                        } else {
                            None
                        }
                    },
                    _ => None,
                }
            },
        }
    }
}

/// What a typed line asks for, by the state of the player: "y" and "n" set the
/// ready flag in the room; in a duel "r", "p" and "s" choose rock, paper and
/// scissors when cards of that kind are in play, and nothing otherwise; "y"
/// asks for the next duel while resting; every other line, and every line in
/// another state, asks for nothing.
pub proof fn lemma_reply_by_letter(state: PlayerState, line: Seq<char>)
    ensures
        state is Joined ==> reply(state, "y"@) == Some(ClientMessage::SetReady(true)) && reply(state, "n"@) == Some(
            ClientMessage::SetReady(false),
        ),
        state matches PlayerState::InDuel { playable_card_count: count, .. } ==> {
            &&& reply(state, "r"@) == if count.rock > 0 {
                Some(ClientMessage::ChooseCardToPlay(Card::Rock))
            } else {
                None
            }
            &&& reply(state, "p"@) == if count.paper > 0 {
                Some(ClientMessage::ChooseCardToPlay(Card::Paper))
            } else {
                None
            }
            &&& reply(state, "s"@) == if count.scissors > 0 {
                Some(ClientMessage::ChooseCardToPlay(Card::Scissors))
            } else {
                None
            }
        },
        state is Resting ==> reply(state, "y"@) == Some(ClientMessage::ReadyForNextDuel),
        state is Resting ==> reply(state, "n"@) is None,
        line != "y"@ && line != "n"@ && line != "r"@ && line != "p"@ && line != "s"@ ==> reply(state, line) is None,
        !(state is Joined || state is InDuel || state is Resting) ==> reply(state, line) is None,
{
    reveal_strlit("y");
    reveal_strlit("n");
    reveal_strlit("r");
    reveal_strlit("p");
    reveal_strlit("s");
    assert("y"@[0] == 'y' && "n"@[0] == 'n' && "r"@[0] == 'r' && "p"@[0] == 'p' && "s"@[0] == 's');
    assert("y"@ != "n"@ && "y"@ != "r"@ && "y"@ != "p"@ && "y"@ != "s"@);
    assert("n"@ != "r"@ && "n"@ != "p"@ && "n"@ != "s"@);
    assert("r"@ != "p"@ && "r"@ != "s"@ && "p"@ != "s"@);
}

/// The ready count of a room is the number of its players whose status is 1.
pub proof fn lemma_ready_count_counts_ready(infos: Seq<PlayerInfo>)
    ensures
        ready_count(infos) == infos.filter(|i: PlayerInfo| i.status == 1).len(),
    decreases infos.len(),
{
    reveal(Seq::filter);
    if infos.len() > 0 {
        lemma_ready_count_counts_ready(infos.drop_last());
    }
}

/// A row shows the player's name; its status is a green or red light in the
/// room and one star per star in the game, marked " [You]" exactly for the
/// client's own player, whose id is 1.
pub proof fn lemma_rows_mark_own_player(info: PlayerInfo)
    ensures
        room_row(info).0 == info.name@,
        star_row(info).0 == info.name@,
        room_row(info).1 == (if info.status == 1 { "🟢"@ } else { "🔴"@ }) + (if info.id == 1 {
            " [You]"@
        } else {
            Seq::<char>::empty()
        }),
        star_row(info).1 == repeated("⭐"@, info.status as nat) + (if info.id == 1 {
            " [You]"@
        } else {
            Seq::<char>::empty()
        }),
{
}

/// The client asks to play a card only while its player duels, and only a
/// kind of which cards are still in play.
pub proof fn lemma_reply_plays_cards_in_play(state: PlayerState, line: Seq<char>, card: Card)
    requires
        reply(state, line) == Some(ClientMessage::ChooseCardToPlay(card)),
    ensures
        state matches PlayerState::InDuel { playable_card_count, .. } && playable_card_count.of(card) > 0,
{
}

} // verus!
