# cowboy

The game engine and lobby logic of *Cowboy*, an online card game played in a video
call, written in Verus: the rules are stated as contracts and proved.

- `src/card.rs`: cards, their values in normal and cowboy rounds, the deck.
- `src/player.rs`: a player's lives and tokens.
- `src/game.rs`: the game state machine; `Game::act` is the single entry point.
- `src/rules.rs`: the mathematical model of the game (`GameModel`) and what each action
  does to it (`act_step`).
- `src/shape.rs`: the shape every started game keeps, and the proof that every action
  keeps it.
- `src/laws.rs`: properties of the game and lobby stated once over the model.
- `src/lobby.rs`: lobbies: joining, reconnecting, host role, starting games, history.
- `src/session.rs`: what the server does with a client's message and when a timer runs
  out, as functions from lobby and input to new lobby and messages.
- `src/video.rs`: tokens for the lobby's video room.
- `src/text.rs`, `src/chance.rs`: decimal text, and the random draws the game uses.
- `app/`: the HTTP and WebSocket server that drives the library (not verified).

The tests under `tests/` run the library on examples.
