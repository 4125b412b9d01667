# gentei_janken

Restricted rock-paper-scissors ("gentei janken"): every player starts with
three stars and a hand of twelve cards, four of each kind. Players duel two at
a time; the better card wins a star from the loser. A player leaves when out of
cards or stars, winning with five stars or more.

The library is written in Verus and verified:

- `src/game.rs` — the pool of playable cards (`CardCount`) and the tournament
  (`Game::play`). Its contract gives the whole run: the dealt table (three
  stars and four cards of each kind for everyone), one duel after another
  between two waiting players while cards are in play, each round settled by
  `Game::settle_round`, and the report at the end. It also proves that the
  total of stars and the set of players never change.
- `src/game/card.rs` — cards and the outcome of a play.
- `src/game/player.rs` — players and the four strategies for choosing a card.
- `src/game/duel.rs` — a duel with a deadline: `Duel::settle_or_wait` says,
  for a given answer of the clock, whether the duel is settled, waits, or is
  finished with cards chosen at random.
- `src/game/state.rs`, `src/network/` — the messages between host and client,
  the client's decisions (what its screen shows for an update, and what it
  sends for a typed line), and the host's record of its clients
  (`network::host`): joins, ready flags, the start of a game, disconnections.
- `src/ui.rs` — the screen layout and the lines drawn on it.
- `src/player_loader.rs` — players listed by strategy in JSON.
- `src/chance.rs`, `src/text.rs` — random draws, decimal numbers, letter case.

`app/` is the program around it: the terminal (crossterm), the network (UDP,
postcard), files, and printing.
