use cowboy::game::{Action, GameError, GameEvent, Phase};
use cowboy::lobby::{ClientMessage, Lobby, ServerMessage};
use cowboy::session::Timer;
use cowboy::text::decimal_text;

fn lobby_with(names: &[&str]) -> Lobby {
    let mut lobby = Lobby::new();
    for n in names {
        lobby.add_player(n.to_string()).unwrap();
    }
    lobby
}

fn error_text(msg: &ServerMessage) -> String {
    match msg {
        ServerMessage::Error { message } => message.clone(),
        other => panic!("expected an error, got {other:?}"),
    }
}

/// A started game in its normal turn order (a deal with a king is dealt again).
fn started_normal_lobby() -> Lobby {
    loop {
        let mut lobby = lobby_with(&["Alice", "Bob", "Cara"]);
        let reply = lobby.handle_client_message(
            1,
            ClientMessage::StartGame { lives: 3, blocker_tokens: 1, exemption_tokens: 1 },
        );
        if reply.timer == Some(Timer::Turn) {
            return lobby;
        }
    }
}

#[test]
fn decimal_text_writes_numbers() {
    assert_eq!(decimal_text(0), "0");
    assert_eq!(decimal_text(7), "7");
    assert_eq!(decimal_text(10), "10");
    assert_eq!(decimal_text(1234567), "1234567");
    assert_eq!(decimal_text(u64::MAX), "18446744073709551615");
}

#[test]
fn game_error_messages() {
    assert_eq!(GameError::NotYourTurn(12).to_string(), "It is not player 12's turn");
    assert_eq!(GameError::PlayerNotFound(0).to_string(), "Player 0 not found");
    assert_eq!(GameError::NoBlockerToken(3).to_string(), "Player 3 has no blocker token");
    assert_eq!(GameError::NoExemptionToken(4).to_string(), "Player 4 has no exemption token");
    assert_eq!(GameError::PlayerEliminated(5).to_string(), "Player 5 is eliminated");
    assert_eq!(
        GameError::NotEnoughPlayers.to_string(),
        "Not enough players to start (need at least 2)"
    );
    assert_eq!(GameError::NotInLobby.to_string(), "Game is not in lobby state");
    assert_eq!(GameError::InvalidAction.to_string(), "Invalid action for current game phase");
    assert_eq!(GameError::GameOver.to_string(), "Game is already over");
}

#[test]
fn kick_by_non_host_is_refused() {
    let mut lobby = lobby_with(&["Alice", "Bob"]);
    let reply = lobby.handle_client_message(2, ClientMessage::KickPlayer { player_id: 1 });
    assert_eq!(reply.broadcasts.len(), 1);
    assert_eq!(error_text(&reply.broadcasts[0]), "Only the host can kick players");
    assert_eq!(reply.timer, None);
    assert_eq!(lobby.players.len(), 2);
}

#[test]
fn kick_by_host_removes_player() {
    let mut lobby = lobby_with(&["Alice", "Bob"]);
    let reply = lobby.handle_client_message(1, ClientMessage::KickPlayer { player_id: 2 });
    assert_eq!(reply.broadcasts.len(), 1);
    match &reply.broadcasts[0] {
        ServerMessage::LobbyUpdate { state } => assert_eq!(state.players.len(), 1),
        other => panic!("expected a lobby update, got {other:?}"),
    }
    assert_eq!(lobby.players.len(), 1);
}

#[test]
fn move_without_game_is_refused() {
    let mut lobby = lobby_with(&["Alice", "Bob"]);
    let reply = lobby.handle_client_message(1, ClientMessage::GameAction { action: Action::Pass });
    assert_eq!(reply.broadcasts.len(), 1);
    assert_eq!(error_text(&reply.broadcasts[0]), "No active game");
    assert_eq!(reply.timer, None);
}

#[test]
fn start_by_non_host_is_refused() {
    let mut lobby = lobby_with(&["Alice", "Bob"]);
    let reply = lobby.handle_client_message(
        2,
        ClientMessage::StartGame { lives: 3, blocker_tokens: 1, exemption_tokens: 1 },
    );
    assert_eq!(error_text(&reply.broadcasts[0]), "Only the host can start the game");
    assert!(lobby.game.is_none());
}

#[test]
fn start_with_one_player_is_refused() {
    let mut lobby = lobby_with(&["Alice"]);
    let reply = lobby.handle_client_message(
        1,
        ClientMessage::StartGame { lives: 3, blocker_tokens: 1, exemption_tokens: 1 },
    );
    assert_eq!(error_text(&reply.broadcasts[0]), "Need at least 2 connected players");
    assert_eq!(reply.timer, None);
}

#[test]
fn start_broadcasts_events_and_lobby() {
    let mut lobby = lobby_with(&["Alice", "Bob"]);
    let reply = lobby.handle_client_message(
        1,
        ClientMessage::StartGame { lives: 3, blocker_tokens: 1, exemption_tokens: 1 },
    );
    assert_eq!(reply.broadcasts.len(), 2);
    match &reply.broadcasts[0] {
        ServerMessage::GameEvents { events } => {
            assert!(matches!(events[0], GameEvent::GameStarted { .. }));
        }
        other => panic!("expected events, got {other:?}"),
    }
    match &reply.broadcasts[1] {
        ServerMessage::LobbyUpdate { state } => assert!(state.game_active),
        other => panic!("expected a lobby update, got {other:?}"),
    }
    let game = lobby.game.as_ref().unwrap();
    assert!(game.events.is_empty());
    let expected = if matches!(game.phase, Phase::CowboyVote { .. }) {
        Timer::CowboyVote
    } else {
        Timer::Turn
    };
    assert_eq!(reply.timer, Some(expected));
}

#[test]
fn transfer_host_answers() {
    let mut lobby = lobby_with(&["Alice", "Bob"]);
    let reply = lobby.handle_client_message(1, ClientMessage::TransferHost { to_player_id: 9 });
    assert_eq!(error_text(&reply.broadcasts[0]), "Target player not found");
    let reply = lobby.handle_client_message(1, ClientMessage::TransferHost { to_player_id: 2 });
    match &reply.broadcasts[0] {
        ServerMessage::LobbyUpdate { state } => assert_eq!(state.host_id, 2),
        other => panic!("expected a lobby update, got {other:?}"),
    }
}

#[test]
fn move_out_of_turn_is_answered_with_its_message() {
    let mut lobby = started_normal_lobby();
    let actor = lobby.game.as_ref().unwrap().current_actor().unwrap();
    let other = if actor == 1 { 2 } else { 1 };
    let reply = lobby.handle_client_message(other, ClientMessage::GameAction { action: Action::Pass });
    assert_eq!(reply.broadcasts.len(), 1);
    assert_eq!(
        error_text(&reply.broadcasts[0]),
        format!("It is not player {other}'s turn")
    );
    assert_eq!(reply.timer, None);
}

#[test]
fn pass_moves_turn_on() {
    let mut lobby = started_normal_lobby();
    let actor = lobby.game.as_ref().unwrap().current_actor().unwrap();
    let reply = lobby.handle_client_message(actor, ClientMessage::GameAction { action: Action::Pass });
    assert_eq!(reply.broadcasts.len(), 1);
    match &reply.broadcasts[0] {
        ServerMessage::GameEvents { events } => {
            assert!(matches!(events[0], GameEvent::PlayerPassed { player_id } if player_id == actor));
        }
        other => panic!("expected events, got {other:?}"),
    }
    assert_eq!(reply.timer, Some(Timer::Turn));
    assert_ne!(lobby.game.as_ref().unwrap().current_actor(), Some(actor));
}

#[test]
fn turn_timer_makes_default_move() {
    let mut lobby = started_normal_lobby();
    let (actor, action) = lobby.turn_timer_watch().unwrap();
    assert_eq!(action, Action::Pass);
    assert_eq!(lobby.game.as_ref().unwrap().current_actor(), Some(actor));

    // A stale watch does nothing.
    let out = lobby.turn_timer_expired(actor + 100, action);
    assert!(out.is_empty());

    let out = lobby.turn_timer_expired(actor, action);
    assert_eq!(out.len(), 1);
    assert!(matches!(out[0], ServerMessage::GameEvents { .. }));

    // The same watch is stale once the move was made.
    let out = lobby.turn_timer_expired(actor, action);
    assert!(out.is_empty());
}

#[test]
fn no_watch_without_game() {
    let lobby = lobby_with(&["Alice", "Bob"]);
    assert_eq!(lobby.turn_timer_watch(), None);
    assert!(!lobby.cowboy_vote_open());
}

#[test]
fn cowboy_timer_resolves_open_vote() {
    let mut lobby = started_normal_lobby();
    assert!(lobby.cowboy_timer_expired().is_empty());

    let game = lobby.game.as_mut().unwrap();
    game.is_cowboy_round = true;
    game.phase = Phase::CowboyVote { votes: vec![] };
    assert!(lobby.cowboy_vote_open());

    // Nobody voted and everybody holds an exemption token: everybody sits out.
    let out = lobby.cowboy_timer_expired();
    assert_eq!(out.len(), 1);
    match &out[0] {
        ServerMessage::GameEvents { events } => {
            assert!(events.iter().any(|e| matches!(e, GameEvent::EveryoneExempted)));
        }
        other => panic!("expected events, got {other:?}"),
    }
    assert!(!lobby.cowboy_vote_open());
    assert!(matches!(lobby.game.as_ref().unwrap().phase, Phase::RoundEnd));
}

#[test]
fn last_vote_resolves_cowboy_round_at_once() {
    let mut lobby = started_normal_lobby();
    let game = lobby.game.as_mut().unwrap();
    game.is_cowboy_round = true;
    game.phase = Phase::CowboyVote { votes: vec![] };
    let order: Vec<u64> = game.alive_order.iter().map(|&i| game.players[i].id).collect();

    for (k, id) in order.iter().enumerate() {
        let reply = lobby.handle_client_message(
            *id,
            ClientMessage::GameAction { action: Action::CowboyVote { exempt: false } },
        );
        if k + 1 < order.len() {
            assert_eq!(reply.timer, Some(Timer::CowboyVote));
        } else {
            match &reply.broadcasts[0] {
                ServerMessage::GameEvents { events } => {
                    assert!(events.iter().any(|e| matches!(e, GameEvent::ShowdownResult { .. })));
                }
                other => panic!("expected events, got {other:?}"),
            }
            assert!(!lobby.cowboy_vote_open());
        }
    }
}

#[test]
fn greeting_without_game() {
    let lobby = lobby_with(&["Alice", "Bob"]);
    let ms = lobby.greeting(2, "tok".to_string());
    assert_eq!(ms.len(), 2);
    assert!(matches!(&ms[0], ServerMessage::Welcome { player_id: 2, session_token } if session_token == "tok"));
    assert!(matches!(ms[1], ServerMessage::LobbyUpdate { .. }));
}

#[test]
fn greeting_in_game_shows_own_view() {
    let lobby = started_normal_lobby();
    let ms = lobby.greeting(2, "tok".to_string());
    assert_eq!(ms.len(), 3);
    match &ms[2] {
        ServerMessage::GameState { state } => {
            let me = lobby.game.as_ref().unwrap().players.iter().find(|p| p.id == 2).unwrap();
            assert_eq!(state.your_card, me.hand);
            assert_eq!(state.your_lives, 3);
        }
        other => panic!("expected a game state, got {other:?}"),
    }
    // Somebody who does not play gets no game view.
    assert_eq!(lobby.greeting(99, "x".to_string()).len(), 2);
}

#[test]
fn relay_keeps_personal_states_personal() {
    let lobby = started_normal_lobby();
    let st = lobby.player_game_state(1).unwrap();
    assert!(lobby.relay(2, ServerMessage::GameState { state: st }).is_empty());

    let out = lobby.relay(2, ServerMessage::Error { message: "x".to_string() });
    assert_eq!(out.len(), 1);
    assert_eq!(error_text(&out[0]), "x");

    let out = lobby.relay(2, ServerMessage::GameEvents { events: vec![] });
    assert_eq!(out.len(), 2);
    assert!(matches!(out[1], ServerMessage::GameState { .. }));

    let out = lobby.relay(99, ServerMessage::GameEvents { events: vec![] });
    assert_eq!(out.len(), 1);
}
