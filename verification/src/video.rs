use vstd::prelude::*;

use livekit_api::access_token::{AccessToken, AccessTokenError, VideoGrants};

use crate::lobby::Lobby;
use crate::player::PlayerId;
use crate::text::{decimal, decimal_text};

verus! {

/// The error `livekit_api` reports when it cannot sign a token.
#[verifier::external_type_specification]
#[verifier::external_body]
pub struct ExAccessTokenError(AccessTokenError);

/// What a token is asked to grant: entry to a room under an identity and a display name,
/// with the right to join, publish and subscribe as given.
#[derive(Debug, Clone)]
pub struct VideoGrant {
    pub room: String,
    pub identity: String,
    pub name: String,
    pub room_join: bool,
    pub can_publish: bool,
    pub can_subscribe: bool,
}

/// What `livekit_api::access_token::Claims::from_unverified` reads from a token that it
/// decodes: the issuer (`iss`), the identity (`sub`), the display name (`name`), and of
/// the video grants the room and whether the holder may join (`room_join`), publish
/// (`can_publish()`) and subscribe (`can_subscribe()`). Decoding reads the token's text
/// alone: it checks neither signature nor time.
pub uninterp spec fn token_claims(token: Seq<char>) -> (
    Seq<char>,
    Seq<char>,
    Seq<char>,
    Seq<char>,
    bool,
    bool,
    bool,
);

/// Whether `jsonwebtoken::crypto::verify` accepts the token's signature over its header
/// and claims with HS256 under the key `DecodingKey::from_secret(secret)`.
pub uninterp spec fn token_signed_with(token: Seq<char>, secret: Seq<char>) -> bool;

/// Signs a LiveKit access token for `grant` with `livekit_api::access_token`:
/// `AccessToken::with_api_key` (which stamps the current time and a six-hour expiry, and
/// panics on a clock set before 1970), then `with_identity`, `with_name`, `with_grants`
/// (the room, and joining, publishing and subscribing as the grant says) and `to_jwt`.
/// Claimed, as `to_jwt`'s source shows: an empty key or secret is refused, and so is a
/// grant to join without an identity or a room; anything else is signed, since `to_jwt`
/// then encodes with `jsonwebtoken::encode` through the HMAC provider it installs with
/// `ensure_installed` (no other crate here installs one), and serialising the claims and
/// an HMAC cannot fail. The token decodes to the key as issuer and to the
/// grant's identity, name, room and rights, and is signed with the secret. The times it
/// carries (`nbf`, `exp`) are left unstated.
#[verifier::external_body]
fn sign_video_token(api_key: &str, api_secret: &str, grant: VideoGrant) -> (r: Result<
    String,
    AccessTokenError,
>)
    ensures
        api_key@.len() == 0 || api_secret@.len() == 0 ==> r is Err,
        grant.room_join && (grant.identity@.len() == 0 || grant.room@.len() == 0) ==> r is Err,
        api_key@.len() > 0 && api_secret@.len() > 0 && !(grant.room_join && (
        grant.identity@.len() == 0 || grant.room@.len() == 0)) ==> r is Ok,
        r matches Ok(t) ==> token_claims(t@) == (
            api_key@,
            grant.identity@,
            grant.name@,
            grant.room@,
            grant.room_join,
            grant.can_publish,
            grant.can_subscribe,
        ) && token_signed_with(t@, api_secret@),
{
    let grants = VideoGrants {
        room_join: grant.room_join,
        room: grant.room,
        can_publish: Some(grant.can_publish),
        can_subscribe: Some(grant.can_subscribe),
        ..Default::default()
    };
    AccessToken::with_api_key(api_key, api_secret).with_identity(&grant.identity).with_name(
        &grant.name,
    ).with_grants(grants).to_jwt()
}

/// The message of a signing error: its `Display`, as `thiserror` writes it from the
/// error's attributes. Nothing is claimed of it.
#[verifier::external_body]
fn token_error_text(e: &AccessTokenError) -> String {
    e.to_string()
}

/// A player's request for a token to the lobby's video room.
#[derive(Debug, Clone)]
pub struct LivekitTokenRequest {
    pub lobby_code: String,
    pub player_name: String,
    pub player_id: PlayerId,
}

/// A token to the video room, and where the room is served.
#[derive(Debug, Clone)]
pub struct LivekitTokenResponse {
    pub token: String,
    pub url: String,
}

/// Why no token was issued.
#[derive(Debug, Clone)]
pub enum TokenError {
    /// The player is not in the lobby.
    NotInLobby,
    /// Signing failed; the message says why.
    Signing(String),
}

/// The video room of a lobby: "cowboy-" and the lobby's code.
pub fn video_room(lobby_code: &str) -> (s: String)
    ensures
        s@ == "cowboy-"@ + lobby_code@,
{
    String::from_str("cowboy-").concat(lobby_code)
}

/// A player's identity in the video room: "player-" and their id.
pub fn video_identity(id: PlayerId) -> (s: String)
    ensures
        s@ == "player-"@ + decimal(id as nat),
{
    let num = decimal_text(id);
    String::from_str("player-").concat(num.as_str())
}

/// What a player's request asks to be signed: the lobby's room (`video_room` of the
/// requested code), the player's identity (`video_identity` of their id), the requested
/// name, and the right to join, publish and subscribe.
pub fn video_grant(req: &LivekitTokenRequest) -> (g: VideoGrant)
    ensures
        g.room@ == "cowboy-"@ + req.lobby_code@,
        g.identity@ == "player-"@ + decimal(req.player_id as nat),
        g.name@ == req.player_name@,
        g.room_join && g.can_publish && g.can_subscribe,
{
    VideoGrant {
        room: video_room(req.lobby_code.as_str()),
        identity: video_identity(req.player_id),
        name: req.player_name.clone(),
        room_join: true,
        can_publish: true,
        can_subscribe: true,
    }
}

/// The answer once signing returned `signed`: the token with the room's `url`, or the
/// signing error's message after "Failed to generate token: ".
pub fn token_reply(signed: Result<String, String>, url: String) -> (r: Result<
    LivekitTokenResponse,
    TokenError,
>)
    ensures
        signed matches Ok(t) ==> r matches Ok(resp) && resp.token == t && resp.url == url,
        signed matches Err(m) ==> r matches Err(TokenError::Signing(msg)) && msg@
            == "Failed to generate token: "@ + m@,
{
    match signed {
        Ok(token) => Ok(LivekitTokenResponse { token, url }),
        Err(m) => {
            let msg = String::from_str("Failed to generate token: ").concat(m.as_str());
            Err(TokenError::Signing(msg))
        },
    }
}

impl Lobby {
    /// Whether a player with this id is in the lobby.
    pub open spec fn has_member(self, id: PlayerId) -> bool {
        exists|i: int| 0 <= i < self.players@.len() && self.players@[i].id == id
    }

    /// A token for a player of the lobby to join its video room: `video_grant` of the
    /// request, signed with the server's key and secret, and answered as `token_reply`
    /// says. Refused for a player who is not in the lobby; for a member, issued exactly
    /// when the key and the secret are not empty, issued by the key, for the lobby's room
    /// ("cowboy-" and its code), under the identity "player-" and the id, with the
    /// requested name, the right to join, publish and subscribe, and signed with the secret.
    pub fn livekit_token(
        &self,
        req: &LivekitTokenRequest,
        api_key: &str,
        api_secret: &str,
        url: &String,
    ) -> (r: Result<LivekitTokenResponse, TokenError>)
        ensures
            !self.has_member(req.player_id) ==> r matches Err(TokenError::NotInLobby),
            self.has_member(req.player_id) ==> (r matches Ok(resp) ==> resp.url == *url),
            self.has_member(req.player_id) ==> (r matches Err(e) ==> e matches TokenError::Signing(
                msg,
            ) && "Failed to generate token: "@.is_prefix_of(msg@)),
            self.has_member(req.player_id) && (api_key@.len() == 0 || api_secret@.len() == 0)
                ==> r is Err,
            self.has_member(req.player_id) && api_key@.len() > 0 && api_secret@.len() > 0
                ==> r is Ok,
            r matches Ok(resp) ==> token_claims(resp.token@) == (
                api_key@,
                "player-"@ + decimal(req.player_id as nat),
                req.player_name@,
                "cowboy-"@ + req.lobby_code@,
                true,
                true,
                true,
            ) && token_signed_with(resp.token@, api_secret@),
    {
        let mut in_lobby = false;
        let mut i: usize = 0;
        while i < self.players.len()
            invariant
                i <= self.players@.len(),
                in_lobby == exists|j: int| 0 <= j < i && self.players@[j].id == req.player_id,
            decreases self.players@.len() - i,
        {
            if self.players[i].id == req.player_id {
                in_lobby = true;
            }
            i = i + 1;
        }
        if !in_lobby {
            return Err(TokenError::NotInLobby);
        }
        let grant = video_grant(req);
        proof {
            reveal_strlit("player-");
            reveal_strlit("cowboy-");
            assert(grant.identity@.len() > 0 && grant.room@.len() > 0);
        }
        let signed = match sign_video_token(api_key, api_secret, grant) {
            Ok(jwt) => Ok(jwt),
            Err(e) => Err(token_error_text(&e)),
        };
        let r = token_reply(signed, url.clone());
        proof {
            if r is Err {
                let msg = r->Err_0->Signing_0;
                let p = "Failed to generate token: "@;
                assert(msg@.subrange(0, p.len() as int) =~= p);
            }
        }
        r
    }
}

} // verus!
