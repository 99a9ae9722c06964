use cowboy::lobby::Lobby;

#[test]
fn create_lobby_and_add_players() {
    let mut lobby = Lobby::new();
    assert_eq!(lobby.code.len(), 4);

    let (id1, token1) = lobby.add_player("Alice".to_string()).unwrap();
    assert_eq!(id1, 1);
    assert!(lobby.players[0].is_host);
    assert_eq!(lobby.host_id, 1);

    let (id2, _token2) = lobby.add_player("Bob".to_string()).unwrap();
    assert_eq!(id2, 2);
    assert!(!lobby.players[1].is_host);

    assert!(!token1.is_empty());
}

#[test]
fn first_player_is_host() {
    let mut lobby = Lobby::new();
    lobby.add_player("Alice".to_string()).unwrap();
    lobby.add_player("Bob".to_string()).unwrap();
    assert_eq!(lobby.host_id, 1);
}

#[test]
fn cannot_join_during_game() {
    let mut lobby = Lobby::new();
    lobby.add_player("Alice".to_string()).unwrap();
    lobby.add_player("Bob".to_string()).unwrap();
    lobby.start_game(1, 3, 1, 1).unwrap();

    let result = lobby.add_player("Charlie".to_string());
    assert!(result.is_err());
}

#[test]
fn reconnect_with_session_token() {
    let mut lobby = Lobby::new();
    let (id1, token1) = lobby.add_player("Alice".to_string()).unwrap();

    lobby.disconnect(id1);
    assert!(!lobby.players[0].is_connected);

    let reconnected_id = lobby.reconnect(&token1).unwrap();
    assert_eq!(reconnected_id, id1);
    assert!(lobby.players[0].is_connected);
}

#[test]
fn invalid_session_token_rejected() {
    let mut lobby = Lobby::new();
    lobby.add_player("Alice".to_string()).unwrap();

    let result = lobby.reconnect("bogus-token");
    assert!(result.is_err());
}

#[test]
fn host_transfers_on_leave() {
    let mut lobby = Lobby::new();
    lobby.add_player("Alice".to_string()).unwrap();
    lobby.add_player("Bob".to_string()).unwrap();

    lobby.remove_player(1).unwrap();
    assert_eq!(lobby.host_id, 2);
    assert!(lobby.players[0].is_host);
}

#[test]
fn transfer_host_explicitly() {
    let mut lobby = Lobby::new();
    lobby.add_player("Alice".to_string()).unwrap();
    lobby.add_player("Bob".to_string()).unwrap();

    lobby.transfer_host(1, 2).unwrap();
    assert_eq!(lobby.host_id, 2);
}

#[test]
fn non_host_cannot_transfer() {
    let mut lobby = Lobby::new();
    lobby.add_player("Alice".to_string()).unwrap();
    lobby.add_player("Bob".to_string()).unwrap();

    let result = lobby.transfer_host(2, 1);
    assert!(result.is_err());
}

#[test]
fn start_game_requires_host() {
    let mut lobby = Lobby::new();
    lobby.add_player("Alice".to_string()).unwrap();
    lobby.add_player("Bob".to_string()).unwrap();

    let result = lobby.start_game(2, 3, 1, 1);
    assert!(result.is_err());
}

#[test]
fn start_game_needs_two_players() {
    let mut lobby = Lobby::new();
    lobby.add_player("Alice".to_string()).unwrap();

    let result = lobby.start_game(1, 3, 1, 1);
    assert!(result.is_err());
}

#[test]
fn start_game_success() {
    let mut lobby = Lobby::new();
    lobby.add_player("Alice".to_string()).unwrap();
    lobby.add_player("Bob".to_string()).unwrap();

    lobby.start_game(1, 3, 1, 1).unwrap();
    assert!(lobby.game.is_some());
    assert!(lobby.lobby_state().game_active);
}

#[test]
fn lobby_state_hides_tokens() {
    let mut lobby = Lobby::new();
    lobby.add_player("Alice".to_string()).unwrap();

    let state = lobby.lobby_state();
    assert_eq!(state.players.len(), 1);
    assert_eq!(state.players[0].name, "Alice");
    // LobbyPlayerView has no session_token field
}

#[test]
fn game_result_recorded() {
    let mut lobby = Lobby::new();
    lobby.add_player("Alice".to_string()).unwrap();
    lobby.add_player("Bob".to_string()).unwrap();
    lobby.start_game(1, 3, 1, 1).unwrap();

    lobby.record_game_result(1);
    assert!(lobby.game.is_none());
    assert_eq!(lobby.game_history.len(), 1);
    assert_eq!(lobby.game_history[0].winner_name, "Alice");
    assert_eq!(lobby.game_history[0].game_number, 1);
}

#[test]
fn player_game_state_hides_other_hands() {
    let mut lobby = Lobby::new();
    lobby.add_player("Alice".to_string()).unwrap();
    lobby.add_player("Bob".to_string()).unwrap();
    lobby.start_game(1, 3, 1, 1).unwrap();

    let state = lobby.player_game_state(1).unwrap();
    // Alice can see her own card
    assert!(state.your_card.is_some());
    // Other players' cards are not revealed during play
    for p in &state.players {
        if p.id != 1 {
            assert!(p.revealed_card.is_none());
        }
    }
}

#[test]
fn invite_code_and_tokens_shape() {
    let mut lobby = Lobby::new();
    assert!(lobby.code.chars().all(|c| c.is_ascii_uppercase()));
    let (_, t1) = lobby.add_player("Alice".to_string()).unwrap();
    let (_, t2) = lobby.add_player("Bob".to_string()).unwrap();
    assert_eq!(t1.chars().count(), 36);
    assert_ne!(t1, t2);
}

#[test]
fn lobby_error_messages() {
    let mut lobby = Lobby::new();
    lobby.add_player("Alice".to_string()).unwrap();
    assert_eq!(lobby.start_game(1, 3, 1, 1), Err("Need at least 2 connected players".to_string()));
    assert_eq!(lobby.start_game(5, 3, 1, 1), Err("Only the host can start the game".to_string()));
    assert_eq!(lobby.transfer_host(1, 9), Err("Target player not found".to_string()));
    assert_eq!(lobby.transfer_host(2, 1), Err("Only the host can transfer host".to_string()));
    assert_eq!(lobby.reconnect("nope"), Err("Invalid session token".to_string()));
    lobby.add_player("Bob".to_string()).unwrap();
    lobby.start_game(1, 3, 1, 1).unwrap();
    assert_eq!(lobby.game_count, 1);
    assert_eq!(
        lobby.remove_player(2),
        Err("Cannot remove player during active game".to_string())
    );
    assert_eq!(
        lobby.add_player("Late".to_string()),
        Err("Game is already in progress".to_string())
    );
}

#[test]
fn disconnected_players_sit_out() {
    let mut lobby = Lobby::new();
    lobby.add_player("Alice".to_string()).unwrap();
    lobby.add_player("Bob".to_string()).unwrap();
    lobby.add_player("Cara".to_string()).unwrap();
    lobby.disconnect(2);
    lobby.start_game(1, 2, 0, 0).unwrap();
    let game = lobby.game.as_ref().unwrap();
    let ids: Vec<u64> = game.players.iter().map(|p| p.id).collect();
    assert_eq!(ids, vec![1, 3]);
    assert!(lobby.player_game_state(2).is_none());
}

#[test]
fn host_leaves_with_nobody_connected() {
    let mut lobby = Lobby::new();
    lobby.add_player("Alice".to_string()).unwrap();
    lobby.add_player("Bob".to_string()).unwrap();
    lobby.disconnect(2);
    lobby.remove_player(1).unwrap();
    assert_eq!(lobby.players.len(), 1);
    assert_eq!(lobby.host_id, 1);
    assert!(!lobby.players[0].is_host);
}

#[test]
fn game_over_shows_cards_and_unknown_winner() {
    let mut lobby = Lobby::new();
    lobby.add_player("Alice".to_string()).unwrap();
    lobby.add_player("Bob".to_string()).unwrap();
    lobby.start_game(1, 3, 1, 1).unwrap();
    {
        let game = lobby.game.as_mut().unwrap();
        game.phase = cowboy::game::Phase::RoundEnd;
    }
    let state = lobby.player_game_state(1).unwrap();
    assert_eq!(state.phase, "round_end");
    for p in &state.players {
        assert!(p.revealed_card.is_some());
    }
    lobby.record_game_result(42);
    assert_eq!(lobby.game_history[0].winner_name, "Unknown");
    assert_eq!(lobby.game_history[0].player_count, 2);
    assert_eq!(lobby.game_history[0].round_count, 1);
}
