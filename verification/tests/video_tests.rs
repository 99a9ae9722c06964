use cowboy::lobby::Lobby;
use cowboy::video::{token_reply, video_identity, video_room, LivekitTokenRequest, TokenError};

fn request(lobby: &Lobby, player_id: u64) -> LivekitTokenRequest {
    LivekitTokenRequest {
        lobby_code: lobby.code.clone(),
        player_name: "Alice".to_string(),
        player_id,
    }
}

#[test]
fn room_and_identity_names() {
    assert_eq!(video_room("ABCD"), "cowboy-ABCD");
    assert_eq!(video_identity(42), "player-42");
    assert_eq!(video_identity(0), "player-0");
}

#[test]
fn token_reply_wraps_outcome() {
    let ok = token_reply(Ok("jwt".to_string()), "ws://x".to_string()).unwrap();
    assert_eq!(ok.token, "jwt");
    assert_eq!(ok.url, "ws://x");
    match token_reply(Err("bad keys".to_string()), "ws://x".to_string()) {
        Err(TokenError::Signing(msg)) => assert_eq!(msg, "Failed to generate token: bad keys"),
        other => panic!("expected a signing error, got {other:?}"),
    }
}

#[test]
fn token_refused_outside_lobby() {
    let mut lobby = Lobby::new();
    lobby.add_player("Alice".to_string()).unwrap();
    let r = lobby.livekit_token(&request(&lobby, 7), "devkey", "secret", &"ws://x".to_string());
    assert!(matches!(r, Err(TokenError::NotInLobby)));
}

#[test]
fn token_refused_without_keys() {
    let mut lobby = Lobby::new();
    lobby.add_player("Alice".to_string()).unwrap();
    let r = lobby.livekit_token(&request(&lobby, 1), "", "secret", &"ws://x".to_string());
    match r {
        Err(TokenError::Signing(msg)) => assert!(msg.starts_with("Failed to generate token: ")),
        other => panic!("expected a signing error, got {other:?}"),
    }
}

#[test]
fn token_issued_for_member() {
    let mut lobby = Lobby::new();
    lobby.add_player("Alice".to_string()).unwrap();
    let r = lobby
        .livekit_token(&request(&lobby, 1), "devkey", "secret", &"ws://localhost:7880".to_string())
        .unwrap();
    assert_eq!(r.url, "ws://localhost:7880");
    assert_eq!(r.token.split('.').count(), 3);
}

#[test]
fn grant_names_room_identity_and_rights() {
    let req = LivekitTokenRequest {
        lobby_code: "WXYZ".to_string(),
        player_name: "Bea".to_string(),
        player_id: 17,
    };
    let g = cowboy::video::video_grant(&req);
    assert_eq!(g.room, "cowboy-WXYZ");
    assert_eq!(g.identity, "player-17");
    assert_eq!(g.name, "Bea");
    assert!(g.room_join && g.can_publish && g.can_subscribe);
}
