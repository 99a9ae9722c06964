use vstd::prelude::*;

use crate::card::{Card, fresh_deck};
use crate::chance::{new_session_token, random_below};
use crate::game::{first_seat_with_id, seat_listed, Action, Game, GameEvent, GameModel, Phase, PhaseModel};
use crate::player::{Player, PlayerId};
use crate::rules::{has_player, ids_distinct, index_of, is_first_with_id};
use crate::shape::law_act_keeps_well_formed;
use crate::text::push_char;

verus! {

/// A session token that allows reconnecting to a lobby.
pub type SessionToken = String;

/// A short invite code like "ABCD" for joining lobbies.
pub type InviteCode = String;

/// Info about a connected (or disconnected) player in a lobby.
#[derive(Debug, Clone)]
pub struct LobbyPlayer {
    pub id: PlayerId,
    pub name: String,
    pub session_token: SessionToken,
    pub is_connected: bool,
    pub is_host: bool,
}

/// What clients see about other players (no session tokens).
#[derive(Debug, Clone)]
pub struct LobbyPlayerView {
    pub id: PlayerId,
    pub name: String,
    pub is_connected: bool,
    pub is_host: bool,
}

/// Result of a completed game.
#[derive(Debug, Clone)]
pub struct GameResult {
    pub game_number: u32,
    pub player_count: usize,
    pub round_count: u32,
    pub winner_name: String,
}

/// Snapshot of lobby state sent to clients.
#[derive(Debug, Clone)]
pub struct LobbyState {
    pub code: InviteCode,
    pub players: Vec<LobbyPlayerView>,
    pub host_id: PlayerId,
    pub game_active: bool,
    pub game_history: Vec<GameResult>,
}

/// What everyone can see about a player.
#[derive(Debug, Clone)]
pub struct PlayerPublicState {
    pub id: PlayerId,
    pub name: String,
    pub lives: u8,
    pub has_blocker: bool,
    pub has_exemption: bool,
    pub is_eliminated: bool,
    pub revealed_card: Option<Card>,
}

/// What each player sees about the game state (filtered view).
#[derive(Debug, Clone)]
pub struct PlayerGameState {
    pub round_number: u32,
    pub your_card: Option<Card>,
    pub your_lives: u8,
    pub your_exemption_tokens: u8,
    pub your_blocker_tokens: u8,
    pub players: Vec<PlayerPublicState>,
    pub phase: String,
    pub is_cowboy_round: bool,
    pub dealer_id: PlayerId,
    pub current_actor: Option<PlayerId>,
}

/// Messages broadcast from the lobby to all connected clients.
#[derive(Debug, Clone)]
pub enum ServerMessage {
    /// Lobby state update (player joined, left, settings changed).
    LobbyUpdate { state: LobbyState },
    /// Game state update for a specific player (their hand, etc.).
    GameState { state: PlayerGameState },
    /// Game events for animation (trade proposed, cowboy triggered, etc.).
    GameEvents { events: Vec<GameEvent> },
    /// Error message.
    Error { message: String },
    /// Welcome message with session info on connect/reconnect.
    Welcome { player_id: PlayerId, session_token: SessionToken },
    /// A player's action prompt (it's their turn).
    ActionRequired { player_id: PlayerId, valid_actions: Vec<String>, timeout_secs: Option<u8> },
}

/// Messages clients send to the server.
#[derive(Debug, Clone)]
pub enum ClientMessage {
    /// Start the game (host only).
    StartGame { lives: u8, blocker_tokens: u8, exemption_tokens: u8 },
    /// Game action.
    GameAction { action: Action },
    /// Transfer host to another player.
    TransferHost { to_player_id: PlayerId },
    /// Kick a player (host only).
    KickPlayer { player_id: PlayerId },
}

/// A lobby: its players, its host, the game being played and the results of past games.
pub struct Lobby {
    pub code: InviteCode,
    pub players: Vec<LobbyPlayer>,
    pub host_id: PlayerId,
    pub game: Option<Game>,
    pub game_history: Vec<GameResult>,
    pub game_count: u32,
    /// The id the next player to join will get.
    pub next_player_id: PlayerId,
}

/// Four capital letters.
pub open spec fn is_invite_code(s: Seq<char>) -> bool {
    &&& s.len() == 4
    &&& forall|i: int| 0 <= i < 4 ==> 'A' <= #[trigger] s[i] <= 'Z'
}

/// A random invite code of four capital letters.
fn generate_invite_code() -> (code: InviteCode)
    ensures
        is_invite_code(code@),
{
    let mut code = String::new();
    let mut k: usize = 0;
    while k < 4
        invariant
            k <= 4,
            code@.len() == k,
            forall|i: int| 0 <= i < k ==> 'A' <= #[trigger] code@[i] <= 'Z',
        decreases 4 - k,
    {
        let r = random_below(26);
        let b: u8 = 65u8 + r as u8;
        let c = b as char;
        push_char(&mut code, c);
        k = k + 1;
    }
    code
}

/// The first player, in lobby order, whose session token is `token`.
pub open spec fn is_first_with_token(players: Seq<LobbyPlayer>, token: Seq<char>, i: int) -> bool {
    &&& 0 <= i < players.len()
    &&& players[i].session_token@ == token
    &&& forall|j: int| 0 <= j < i ==> players[j].session_token@ != token
}

/// The first player, in lobby order, with this id.
pub open spec fn is_first_lobby_id(players: Seq<LobbyPlayer>, id: PlayerId, i: int) -> bool {
    &&& 0 <= i < players.len()
    &&& players[i].id == id
    &&& forall|j: int| 0 <= j < i ==> players[j].id != id
}

/// The players that remain once everybody with this id left.
pub open spec fn without_id(players: Seq<LobbyPlayer>, id: PlayerId) -> Seq<LobbyPlayer>
    decreases players.len(),
{
    if players.len() == 0 {
        seq![]
    } else {
        let prev = without_id(players.drop_last(), id);
        if players.last().id != id {
            prev.push(players.last())
        } else {
            prev
        }
    }
}

/// The first connected player, in lobby order.
pub open spec fn is_first_connected(players: Seq<LobbyPlayer>, i: int) -> bool {
    &&& 0 <= i < players.len()
    &&& players[i].is_connected
    &&& forall|j: int| 0 <= j < i ==> !players[j].is_connected
}

/// The seats of a new game: the connected players, in lobby order, with no lives or tokens yet.
pub open spec fn seated(players: Seq<LobbyPlayer>) -> Seq<Player>
    decreases players.len(),
{
    if players.len() == 0 {
        seq![]
    } else {
        let prev = seated(players.drop_last());
        let p = players.last();
        if p.is_connected {
            prev.push(
                Player {
                    id: p.id,
                    name: p.name,
                    lives: 0,
                    exemption_tokens: 0,
                    blocker_tokens: 0,
                    hand: None,
                    is_eliminated: false,
                },
            )
        } else {
            prev
        }
    }
}

/// A new game in its lobby with these players.
pub open spec fn new_game(players: Seq<Player>) -> GameModel {
    GameModel {
        players,
        phase: PhaseModel::Lobby,
        deck: fresh_deck(),
        round_number: 0,
        dealer_idx: 0,
        alive_order: seq![],
        is_cowboy_round: false,
        exempted: seq![],
        events: seq![],
        original_player_count: 0,
    }
}

/// What clients see of a lobby player.
pub open spec fn player_view(p: LobbyPlayer) -> LobbyPlayerView {
    LobbyPlayerView { id: p.id, name: p.name, is_connected: p.is_connected, is_host: p.is_host }
}

/// The name of a phase as sent to clients.
pub open spec fn phase_name(phase: PhaseModel) -> Seq<char> {
    match phase {
        PhaseModel::Lobby => "lobby"@,
        PhaseModel::KingCheck => "king_check"@,
        PhaseModel::NormalTurn { .. } => "normal_turn"@,
        PhaseModel::WaitingForBlock { .. } => "waiting_for_block"@,
        PhaseModel::DealerTurn => "dealer_turn"@,
        PhaseModel::CowboyVote { .. } => "cowboy_vote"@,
        PhaseModel::Showdown => "showdown"@,
        PhaseModel::RoundEnd => "round_end"@,
        PhaseModel::GameOver { .. } => "game_over"@,
    }
}

/// What everyone sees of seat `i`: cards are shown only once the round is over, and only
/// for players who did not exempt.
pub open spec fn public_view(g: GameModel, i: int) -> PlayerPublicState {
    let p = g.players[i];
    let shown = (g.phase is RoundEnd || g.phase is GameOver) && !g.exempted.contains(
        index_of(g.players, p.id) as usize,
    );
    PlayerPublicState {
        id: p.id,
        name: p.name,
        lives: p.lives,
        has_blocker: p.blocker_tokens > 0,
        has_exemption: p.exemption_tokens > 0,
        is_eliminated: p.is_eliminated,
        revealed_card: if shown {
            p.hand
        } else {
            None
        },
    }
}

/// What `player_id` sees of the game `g`: their own card, lives and tokens, everybody's
/// public state, the phase, the dealer and who is to act.
pub open spec fn game_view(s: PlayerGameState, g: GameModel, player_id: PlayerId) -> bool {
    let p = g.players[index_of(g.players, player_id)];
    &&& s.round_number == g.round_number
    &&& s.your_card == p.hand
    &&& s.your_lives == p.lives
    &&& s.your_exemption_tokens == p.exemption_tokens
    &&& s.your_blocker_tokens == p.blocker_tokens
    &&& s.players@ == Seq::new(g.players.len(), |i: int| public_view(g, i))
    &&& s.phase@ == phase_name(g.phase)
    &&& s.is_cowboy_round == g.is_cowboy_round
    &&& s.dealer_id == g.players[g.dealer_idx as int].id
    &&& s.current_actor == g.actor()
}

/// The lobby as clients see it: no session tokens.
pub open spec fn shows_lobby(st: LobbyState, l: Lobby) -> bool {
    &&& st.code == l.code
    &&& st.players@ == l.players@.map_values(|p: LobbyPlayer| player_view(p))
    &&& st.host_id == l.host_id
    &&& st.game_active == l.game is Some
    &&& st.game_history@ == l.game_history@
}

/// The first lobby seat, if any, whose player has this id.
fn first_lobby_seat(players: &Vec<LobbyPlayer>, id: PlayerId) -> (r: Option<usize>)
    ensures
        r matches Some(i) ==> is_first_lobby_id(players@, id, i as int),
        r is None ==> forall|i: int| !is_first_lobby_id(players@, id, i),
{
    let mut i: usize = 0;
    while i < players.len()
        invariant
            i <= players@.len(),
            forall|j: int| 0 <= j < i ==> players@[j].id != id,
        decreases players@.len() - i,
    {
        if players[i].id == id {
            return Some(i);
        }
        i = i + 1;
    }
    None
}

/// Every player's id is below `next`.
pub open spec fn ids_below(players: Seq<LobbyPlayer>, next: PlayerId) -> bool {
    forall|i: int| 0 <= i < players.len() ==> #[trigger] players[i].id < next
}

/// No two players share an id.
pub open spec fn lobby_ids_apart(players: Seq<LobbyPlayer>) -> bool {
    forall|i: int, j: int| 0 <= i < j < players.len() ==> players[i].id != players[j].id
}

impl Lobby {
    /// Every player's id is below the next one to be given out, no two players share an
    /// id, and a running game keeps its shape and has left its lobby phase.
    pub open spec fn well_formed(&self) -> bool {
        &&& ids_below(self.players@, self.next_player_id)
        &&& lobby_ids_apart(self.players@)
        &&& self.game matches Some(g) ==> g@.well_formed() && !(g@.phase is Lobby)
    }
}

impl Lobby {
    /// What adding a player does: refused during a game; otherwise the player joins,
    /// connected, with the next id and a fresh 36-character session token, and becomes
    /// host of an empty lobby.
    pub open spec fn player_added(
        self,
        post: Lobby,
        name: String,
        r: Result<(PlayerId, SessionToken), String>,
    ) -> bool {
        &&& self.game is Some ==> (r matches Err(e) && e@ == "Game is already in progress"@ && post
            == self)
        &&& self.game is None ==> (r matches Ok((id, token)) && id == self.next_player_id
            && token@.len() == 36 && post.next_player_id == self.next_player_id + 1
            && post.players@ == self.players@.push(
            LobbyPlayer {
                id,
                name,
                session_token: token,
                is_connected: true,
                is_host: self.players@.len() == 0,
            },
        ) && post.host_id == (if self.players@.len() == 0 {
            id
        } else {
            self.host_id
        }) && post.code == self.code && post.game is None && post.game_history
            == self.game_history && post.game_count == self.game_count)
    }

    /// What removing a player does: refused during a game; otherwise every player with
    /// that id leaves, and when the host left, the first connected player left becomes host.
    pub open spec fn player_removed(self, post: Lobby, player_id: PlayerId, r: Result<(), String>) -> bool {
        &&& self.game is Some ==> (r matches Err(e) && e@ == "Cannot remove player during active game"@
            && post == self)
        &&& self.game is None ==> r is Ok && ({
            let rest = without_id(self.players@, player_id);
            if self.host_id == player_id && exists|j: int| is_first_connected(rest, j) {
                exists|j: int|
                    is_first_connected(rest, j) && post.players@ == rest.update(
                        j,
                        LobbyPlayer { is_host: true, ..rest[j] },
                    ) && post.host_id == rest[j].id
            } else {
                post.players@ == rest && post.host_id == self.host_id
            }
        })
        &&& post.code == self.code && post.game == self.game && post.game_history
            == self.game_history && post.game_count == self.game_count && post.next_player_id
            == self.next_player_id
    }

    /// What passing the host role on does: only the host can, and only to a player of the
    /// lobby; every player's host flag then says whether it is the new host.
    pub open spec fn host_transferred(
        self,
        post: Lobby,
        from_id: PlayerId,
        to_id: PlayerId,
        r: Result<(), String>,
    ) -> bool {
        let found = exists|i: int| 0 <= i < self.players@.len() && self.players@[i].id == to_id;
        &&& self.host_id != from_id ==> (r matches Err(e) && e@ == "Only the host can transfer host"@
            && post == self)
        &&& self.host_id == from_id && !found ==> (r matches Err(e) && e@
            == "Target player not found"@ && post == self)
        &&& self.host_id == from_id && found ==> r is Ok && post.host_id == to_id
            && post.players@.len() == self.players@.len() && (forall|i: int|
            0 <= i < self.players@.len() ==> #[trigger] post.players@[i] == (LobbyPlayer {
                is_host: self.players@[i].id == to_id,
                ..self.players@[i]
            }))
        &&& r is Ok || post == self
        &&& post.code == self.code && post.game == self.game && post.game_history
            == self.game_history && post.game_count == self.game_count && post.next_player_id
            == self.next_player_id
    }

    /// What starting a game does: only the host can, with at least two connected
    /// players; the game seats the connected players in lobby order and is started.
    pub open spec fn game_started(
        self,
        post: Lobby,
        host_id: PlayerId,
        lives: u8,
        blocker_tokens: u8,
        exemption_tokens: u8,
        r: Result<(), String>,
    ) -> bool {
        let seats = seated(self.players@);
        &&& self.host_id != host_id ==> (r matches Err(e) && e@ == "Only the host can start the game"@
            && post == self)
        &&& self.host_id == host_id && seats.len() < 2 ==> (r matches Err(e) && e@
            == "Need at least 2 connected players"@ && post == self)
        &&& self.host_id == host_id && seats.len() >= 2 ==> (r is Ok && post.game_count
            == self.game_count + 1 && (post.game matches Some(g) && new_game(seats).act_step(
            g@,
            0,
            Action::StartGame { lives, blocker_tokens, exemption_tokens },
            Ok(()),
        )) && post.players == self.players && post.code == self.code && post.host_id
            == self.host_id && post.game_history == self.game_history && post.next_player_id
            == self.next_player_id)
    }

    /// What recording a finished game does: the game closes and its result (number,
    /// players, rounds, winner's name or "Unknown") is added to the history.
    pub open spec fn result_recorded(self, post: Lobby, winner_id: PlayerId) -> bool {
        let res = post.game_history@.last();
        let known = exists|i: int| is_first_lobby_id(self.players@, winner_id, i);
        &&& post.game is None
        &&& post.game_history@.len() == self.game_history@.len() + 1
        &&& post.game_history@.drop_last() == self.game_history@
        &&& res.game_number == self.game_count
        &&& res.player_count == (match self.game {
            Some(g) => g.players@.len() as usize,
            None => 0usize,
        })
        &&& res.round_count == (match self.game {
            Some(g) => g.round_number,
            None => 0u32,
        })
        &&& known ==> exists|i: int|
            is_first_lobby_id(self.players@, winner_id, i) && res.winner_name == self.players@[i].name
        &&& !known ==> res.winner_name@ == "Unknown"@
        &&& post.players == self.players && post.code == self.code && post.host_id == self.host_id
            && post.game_count == self.game_count && post.next_player_id == self.next_player_id
    }
}

/// The seats of a new game come from distinct lobby players, so their ids are distinct.
proof fn lemma_seated_ids(players: Seq<LobbyPlayer>)
    requires
        lobby_ids_apart(players),
    ensures
        ids_distinct(seated(players)),
        forall|k: int|
            0 <= k < seated(players).len() ==> exists|j: int|
                0 <= j < players.len() && #[trigger] seated(players)[k].id == players[j].id,
    decreases players.len(),
{
    if players.len() > 0 {
        let init = players.drop_last();
        assert(lobby_ids_apart(init));
        lemma_seated_ids(init);
        let prev = seated(init);
        let last = players.last();
        if last.is_connected {
            assert forall|k: int| 0 <= k < prev.len() implies prev[k].id != last.id by {
                let j = choose|j: int| 0 <= j < init.len() && prev[k].id == init[j].id;
                assert(players[j] == init[j]);
            }
            assert forall|k: int| 0 <= k < seated(players).len() implies exists|j: int|
                0 <= j < players.len() && #[trigger] seated(players)[k].id == players[j].id by {
                if k < prev.len() {
                    let j = choose|j: int| 0 <= j < init.len() && prev[k].id == init[j].id;
                    assert(players[j] == init[j]);
                } else {
                    assert(seated(players)[k].id == players[players.len() - 1].id);
                }
            }
        } else {
            assert forall|k: int| 0 <= k < seated(players).len() implies exists|j: int|
                0 <= j < players.len() && #[trigger] seated(players)[k].id == players[j].id by {
                let j = choose|j: int| 0 <= j < init.len() && prev[k].id == init[j].id;
                assert(players[j] == init[j]);
            }
        }
    }
}

/// Removing players keeps the others' ids below the bound and apart.
proof fn lemma_without_id_ids(players: Seq<LobbyPlayer>, id: PlayerId, next: PlayerId)
    requires
        ids_below(players, next),
        lobby_ids_apart(players),
    ensures
        ids_below(without_id(players, id), next),
        lobby_ids_apart(without_id(players, id)),
        forall|k: int|
            0 <= k < without_id(players, id).len() ==> exists|j: int|
                0 <= j < players.len() && #[trigger] without_id(players, id)[k].id
                    == players[j].id,
    decreases players.len(),
{
    if players.len() > 0 {
        let init = players.drop_last();
        assert(ids_below(init, next));
        assert(lobby_ids_apart(init));
        lemma_without_id_ids(init, id, next);
        let prev = without_id(init, id);
        let w = without_id(players, id);
        let last = players.last();
        assert forall|k: int| 0 <= k < prev.len() implies exists|j: int|
            0 <= j < players.len() - 1 && #[trigger] prev[k].id == players[j].id by {
            let j = choose|j: int| 0 <= j < init.len() && prev[k].id == init[j].id;
            assert(players[j] == init[j]);
        }
        if last.id != id {
            assert forall|k: int| 0 <= k < prev.len() implies prev[k].id != last.id by {
                let j = choose|j: int| 0 <= j < players.len() - 1 && prev[k].id == players[j].id;
            }
            assert forall|k: int| 0 <= k < w.len() implies exists|j: int|
                0 <= j < players.len() && #[trigger] w[k].id == players[j].id by {
                if k < prev.len() {
                    let j = choose|j: int| 0 <= j < players.len() - 1 && prev[k].id == players[j].id;
                } else {
                    assert(w[k].id == players[players.len() - 1].id);
                }
            }
            assert forall|k: int| 0 <= k < w.len() implies #[trigger] w[k].id < next by {
                if k < prev.len() {
                } else {
                    assert(w[k].id == players[players.len() - 1].id);
                }
            }
        } else {
            assert forall|k: int| 0 <= k < w.len() implies exists|j: int|
                0 <= j < players.len() && #[trigger] w[k].id == players[j].id by {
                let j = choose|j: int| 0 <= j < players.len() - 1 && prev[k].id == players[j].id;
            }
        }
    }
}

impl Lobby {
    /// A new, empty lobby with a random invite code.
    pub fn new() -> (l: Self)
        ensures
            is_invite_code(l.code@),
            l.players@ == Seq::<LobbyPlayer>::empty(),
            l.host_id == 0,
            l.game is None,
            l.game_history@ == Seq::<GameResult>::empty(),
            l.game_count == 0,
            l.next_player_id == 1,
            l.well_formed(),
    {
        Self {
            code: generate_invite_code(),
            players: Vec::new(),
            host_id: 0,
            game: None,
            game_history: Vec::new(),
            game_count: 0,
            next_player_id: 1,
        }
    }

    /// Adds a player to the lobby and returns the new id and session token; the first
    /// player becomes the host. Refused while a game is in progress.
    pub fn add_player(&mut self, name: String) -> (r: Result<(PlayerId, SessionToken), String>)
        requires
            old(self).game is None ==> old(self).next_player_id < u64::MAX,
        ensures
            old(self).player_added(*final(self), name, r),
            old(self).well_formed() ==> final(self).well_formed(),
    {
        if self.game.is_some() {
            return Err(String::from_str("Game is already in progress"));
        }
        let id = self.next_player_id;
        self.next_player_id = self.next_player_id + 1;
        let token = new_session_token();
        let is_host = self.players.len() == 0;
        if is_host {
            self.host_id = id;
        }
        self.players.push(
            LobbyPlayer { id, name, session_token: token.clone(), is_connected: true, is_host },
        );
        Ok((id, token))
    }

    /// Reconnects the player holding this session token and returns the player's id.
    pub fn reconnect(&mut self, session_token: &str) -> (r: Result<PlayerId, String>)
        ensures
            r matches Ok(id) ==> exists|i: int|
                is_first_with_token(old(self).players@, session_token@, i) && id
                    == old(self).players@[i].id && final(self).players@ == old(self).players@.update(
                    i,
                    LobbyPlayer { is_connected: true, ..old(self).players@[i] },
                ),
            r matches Err(e) ==> e@ == "Invalid session token"@ && forall|i: int|
                0 <= i < old(self).players@.len() ==> old(self).players@[i].session_token@
                    != session_token@,
            r is Err ==> final(self).players == old(self).players,
            final(self).code == old(self).code && final(self).host_id == old(self).host_id
                && final(self).game == old(self).game && final(self).game_history
                == old(self).game_history && final(self).game_count == old(self).game_count
                && final(self).next_player_id == old(self).next_player_id,
            old(self).well_formed() ==> final(self).well_formed(),
    {
        let wanted = String::from_str(session_token);
        let mut i: usize = 0;
        while i < self.players.len()
            invariant
                i <= self.players@.len(),
                wanted@ == session_token@,
                self.players == old(self).players,
                self.code == old(self).code && self.host_id == old(self).host_id && self.game
                    == old(self).game && self.game_history == old(self).game_history
                    && self.game_count == old(self).game_count && self.next_player_id
                    == old(self).next_player_id,
                forall|j: int| 0 <= j < i ==> self.players@[j].session_token@ != session_token@,
            decreases self.players@.len() - i,
        {
            if self.players[i].session_token == wanted {
                self.players[i].is_connected = true;
                let id = self.players[i].id;
                proof {
                    assert(is_first_with_token(old(self).players@, session_token@, i as int));
                    assert(self.players@ =~= old(self).players@.update(
                        i as int,
                        LobbyPlayer { is_connected: true, ..old(self).players@[i as int] },
                    ));
                }
                return Ok(id);
            }
            i = i + 1;
        }
        Err(String::from_str("Invalid session token"))
    }

    /// Marks the first player with this id as disconnected, if there is one.
    pub fn disconnect(&mut self, player_id: PlayerId)
        ensures
            (exists|i: int| is_first_lobby_id(old(self).players@, player_id, i)
                && final(self).players@ == old(self).players@.update(
                i,
                LobbyPlayer { is_connected: false, ..old(self).players@[i] },
            )) || ((forall|i: int|
                0 <= i < old(self).players@.len() ==> old(self).players@[i].id != player_id)
                && final(self).players == old(self).players),
            final(self).code == old(self).code && final(self).host_id == old(self).host_id
                && final(self).game == old(self).game && final(self).game_history
                == old(self).game_history && final(self).game_count == old(self).game_count
                && final(self).next_player_id == old(self).next_player_id,
            old(self).well_formed() ==> final(self).well_formed(),
    {
        let mut i: usize = 0;
        while i < self.players.len()
            invariant
                i <= self.players@.len(),
                self.players == old(self).players,
                self.code == old(self).code && self.host_id == old(self).host_id && self.game
                    == old(self).game && self.game_history == old(self).game_history
                    && self.game_count == old(self).game_count && self.next_player_id
                    == old(self).next_player_id,
                forall|j: int| 0 <= j < i ==> self.players@[j].id != player_id,
            decreases self.players@.len() - i,
        {
            if self.players[i].id == player_id {
                self.players[i].is_connected = false;
                proof {
                    assert(is_first_lobby_id(old(self).players@, player_id, i as int));
                    assert(self.players@ =~= old(self).players@.update(
                        i as int,
                        LobbyPlayer { is_connected: false, ..old(self).players@[i as int] },
                    ));
                }
                return ;
            }
            i = i + 1;
        }
    }

    /// Removes every player with this id (kick or leave while in the lobby); when the host
    /// leaves, the first connected player left becomes host. Refused during a game.
    pub fn remove_player(&mut self, player_id: PlayerId) -> (r: Result<(), String>)
        ensures
            old(self).player_removed(*final(self), player_id, r),
            old(self).well_formed() ==> final(self).well_formed(),
    {
        if self.game.is_some() {
            return Err(String::from_str("Cannot remove player during active game"));
        }
        let mut old_players: Vec<LobbyPlayer> = Vec::new();
        std::mem::swap(&mut old_players, &mut self.players);
        let mut kept: Vec<LobbyPlayer> = Vec::new();
        let ghost all = old_players@;
        let n = old_players.len();
        let mut i: usize = 0;
        proof {
            assert(all.take(0) =~= seq![]);
            assert(all.skip(0) =~= all);
            assert(all == old(self).players@);
        }
        while i < n
            invariant
                n == all.len(),
                i <= n,
                old_players@ == all.skip(i as int),
                kept@ == without_id(all.take(i as int), player_id),
                self.code == old(self).code && self.game == old(self).game && self.game_history
                    == old(self).game_history && self.game_count == old(self).game_count
                    && self.next_player_id == old(self).next_player_id && self.host_id
                    == old(self).host_id,
            decreases n - i,
        {
            let p = old_players.remove(0);
            proof {
                assert(all.take(i + 1).drop_last() =~= all.take(i as int));
                assert(all.take(i + 1).last() == all[i as int]);
                assert(p == all[i as int]);
                assert(old_players@ =~= all.skip(i + 1));
            }
            if p.id != player_id {
                kept.push(p);
            }
            i = i + 1;
        }
        proof {
            assert(all.take(i as int) =~= all);
        }
        self.players = kept;
        proof {
            if old(self).well_formed() {
                lemma_without_id_ids(all, player_id, self.next_player_id);
            }
        }
        if self.host_id == player_id {
            let mut j: usize = 0;
            while j < self.players.len()
                invariant
                    j <= self.players@.len(),
                    self.players@ == without_id(all, player_id),
                    all == old(self).players@,
                    old(self).game is None,
                    old(self).host_id == player_id,
                    self.host_id == player_id,
                    self.code == old(self).code && self.game == old(self).game && self.game_history
                        == old(self).game_history && self.game_count == old(self).game_count
                        && self.next_player_id == old(self).next_player_id,
                    forall|m: int| 0 <= m < j ==> !self.players@[m].is_connected,
                    old(self).well_formed() ==> ids_below(self.players@, self.next_player_id)
                        && lobby_ids_apart(self.players@),
                decreases self.players@.len() - j,
            {
                if self.players[j].is_connected {
                    let ghost rest = self.players@;
                    self.players[j].is_host = true;
                    self.host_id = self.players[j].id;
                    proof {
                        assert(is_first_connected(rest, j as int));
                        assert(self.players@ =~= rest.update(
                            j as int,
                            LobbyPlayer { is_host: true, ..rest[j as int] },
                        ));
                    }
                    return Ok(());
                }
                j = j + 1;
            }
            proof {
                assert(!exists|m: int| is_first_connected(self.players@, m));
            }
        }
        Ok(())
    }

    /// Makes another player of the lobby the host; only the host can do it.
    pub fn transfer_host(&mut self, from_id: PlayerId, to_id: PlayerId) -> (r: Result<(), String>)
        ensures
            old(self).host_transferred(*final(self), from_id, to_id, r),
            old(self).well_formed() ==> final(self).well_formed(),
    {
        if self.host_id != from_id {
            return Err(String::from_str("Only the host can transfer host"));
        }
        let mut to_exists = false;
        let mut i: usize = 0;
        while i < self.players.len()
            invariant
                i <= self.players@.len(),
                to_exists == exists|j: int| 0 <= j < i && self.players@[j].id == to_id,
            decreases self.players@.len() - i,
        {
            if self.players[i].id == to_id {
                to_exists = true;
            }
            i = i + 1;
        }
        if !to_exists {
            return Err(String::from_str("Target player not found"));
        }
        let mut i: usize = 0;
        while i < self.players.len()
            invariant
                i <= self.players@.len(),
                self.players@.len() == old(self).players@.len(),
                self.code == old(self).code && self.game == old(self).game && self.game_history
                    == old(self).game_history && self.game_count == old(self).game_count
                    && self.next_player_id == old(self).next_player_id && self.host_id
                    == old(self).host_id,
                forall|j: int|
                    0 <= j < i ==> #[trigger] self.players@[j] == (LobbyPlayer {
                        is_host: old(self).players@[j].id == to_id,
                        ..old(self).players@[j]
                    }),
                forall|j: int| i <= j < self.players@.len() ==> self.players@[j] == old(self).players@[j],
            decreases self.players@.len() - i,
        {
            let is_to = self.players[i].id == to_id;
            self.players[i].is_host = is_to;
            i = i + 1;
        }
        self.host_id = to_id;
        Ok(())
    }


    /// Starts a new game with the connected players, in lobby order; only the host can start
    /// it and at least two players must be connected.
    pub fn start_game(
        &mut self,
        host_id: PlayerId,
        lives: u8,
        blocker_tokens: u8,
        exemption_tokens: u8,
    ) -> (r: Result<(), String>)
        requires
            old(self).host_id == host_id && seated(old(self).players@).len() >= 2 ==> lives > 0
                && seated(old(self).players@).len() <= 52 && old(self).game_count < u32::MAX,
        ensures
            old(self).game_started(*final(self), host_id, lives, blocker_tokens, exemption_tokens, r),
            old(self).well_formed() ==> final(self).well_formed(),
    {
        if self.host_id != host_id {
            return Err(String::from_str("Only the host can start the game"));
        }
        let mut game = Game::new();
        let mut i: usize = 0;
        while i < self.players.len()
            invariant
                i <= self.players@.len(),
                game@ == new_game(seated(self.players@.take(i as int))),
            decreases self.players@.len() - i,
        {
            proof {
                assert(self.players@.take(i + 1).drop_last() =~= self.players@.take(i as int));
                assert(self.players@.take(i + 1).last() == self.players@[i as int]);
            }
            if self.players[i].is_connected {
                let name = self.players[i].name.clone();
                let _ = game.add_player(self.players[i].id, name);
            }
            i = i + 1;
        }
        proof {
            assert(self.players@.take(i as int) =~= self.players@);
        }
        if game.players.len() < 2 {
            return Err(String::from_str("Need at least 2 connected players"));
        }
        let started = game.act(0, Action::StartGame { lives, blocker_tokens, exemption_tokens });
        proof {
            assert(started is Ok);
            let g0 = new_game(seated(self.players@));
            assert(g0.cleared_log() == g0);
            if old(self).well_formed() {
                lemma_seated_ids(self.players@);
                law_act_keeps_well_formed(
                    g0,
                    game@,
                    0,
                    Action::StartGame { lives, blocker_tokens, exemption_tokens },
                    started,
                );
                assert(!(game@.phase is Lobby));
            }
        }
        self.game_count = self.game_count + 1;
        self.game = Some(game);
        Ok(())
    }

    /// The lobby as clients see it: no session tokens.
    pub fn lobby_state(&self) -> (st: LobbyState)
        ensures
            shows_lobby(st, *self),
    {
        let mut views: Vec<LobbyPlayerView> = Vec::new();
        let mut i: usize = 0;
        while i < self.players.len()
            invariant
                i <= self.players@.len(),
                views@ == self.players@.take(i as int).map_values(|p: LobbyPlayer| player_view(p)),
            decreases self.players@.len() - i,
        {
            let p = &self.players[i];
            views.push(
                LobbyPlayerView {
                    id: p.id,
                    name: p.name.clone(),
                    is_connected: p.is_connected,
                    is_host: p.is_host,
                },
            );
            proof {
                assert(views@ =~= self.players@.take(i + 1).map_values(
                    |p: LobbyPlayer| player_view(p),
                ));
            }
            i = i + 1;
        }
        proof {
            assert(self.players@.take(i as int) =~= self.players@);
        }
        let mut history: Vec<GameResult> = Vec::new();
        let mut i: usize = 0;
        while i < self.game_history.len()
            invariant
                i <= self.game_history@.len(),
                history@ == self.game_history@.take(i as int),
            decreases self.game_history@.len() - i,
        {
            let g = &self.game_history[i];
            history.push(
                GameResult {
                    game_number: g.game_number,
                    player_count: g.player_count,
                    round_count: g.round_count,
                    winner_name: g.winner_name.clone(),
                },
            );
            proof {
                assert(history@ =~= self.game_history@.take(i + 1));
            }
            i = i + 1;
        }
        proof {
            assert(self.game_history@.take(i as int) =~= self.game_history@);
        }
        LobbyState {
            code: self.code.clone(),
            players: views,
            host_id: self.host_id,
            game_active: self.game.is_some(),
            game_history: history,
        }
    }

    /// The game as one player sees it: their own card and tokens, everybody's public
    /// state, and cards of other players only once the round is over. `None` when no game
    /// is running or the player is not in it.
    pub fn player_game_state(&self, player_id: PlayerId) -> (st: Option<PlayerGameState>)
        requires
            self.game matches Some(g) ==> (has_player(g@.players, player_id) ==> g.dealer_idx
                < g.players@.len() && g@.can_name_actor()),
        ensures
            self.game is None ==> st is None,
            self.game matches Some(g) ==> (!has_player(g@.players, player_id) ==> st is None),
            self.game matches Some(g) ==> (has_player(g@.players, player_id) ==> (st matches Some(
                s,
            ) && game_view(s, g@, player_id))),
    {
        let game = match &self.game {
            Some(g) => g,
            None => return None,
        };
        let pidx = match first_seat_with_id(&game.players, player_id) {
            Some(i) => i,
            None => return None,
        };
        proof {
            let c = index_of(game@.players, player_id);
            assert(is_first_with_id(game@.players, player_id, c));
            assert(c == pidx as int) by {
                if c < pidx {
                    assert(game@.players[c].id != player_id);
                } else if pidx < c {
                    assert(game@.players[pidx as int].id != player_id);
                }
            }
        }
        let phase_str = match &game.phase {
            Phase::Lobby => String::from_str("lobby"),
            Phase::KingCheck => String::from_str("king_check"),
            Phase::NormalTurn { .. } => String::from_str("normal_turn"),
            Phase::WaitingForBlock { .. } => String::from_str("waiting_for_block"),
            Phase::DealerTurn => String::from_str("dealer_turn"),
            Phase::CowboyVote { .. } => String::from_str("cowboy_vote"),
            Phase::Showdown => String::from_str("showdown"),
            Phase::RoundEnd => String::from_str("round_end"),
            Phase::GameOver { .. } => String::from_str("game_over"),
        };
        let round_over = match &game.phase {
            Phase::RoundEnd => true,
            Phase::GameOver { .. } => true,
            _ => false,
        };
        let mut public: Vec<PlayerPublicState> = Vec::new();
        let mut i: usize = 0;
        while i < game.players.len()
            invariant
                i <= game.players@.len(),
                round_over == (game@.phase is RoundEnd || game@.phase is GameOver),
                public@ == Seq::new(i as nat, |k: int| public_view(game@, k)),
            decreases game.players@.len() - i,
        {
            let p = &game.players[i];
            let revealed = if round_over {
                let p_idx = first_seat_with_id(&game.players, p.id).unwrap();
                proof {
                    let c = index_of(game@.players, p.id);
                    assert(is_first_with_id(game@.players, p.id, i as int) || exists|j: int|
                        0 <= j < i && game@.players[j].id == p.id);
                    assert(is_first_with_id(game@.players, p.id, c));
                    assert(c == p_idx as int) by {
                        if c < p_idx {
                            assert(game@.players[c].id != p.id);
                        } else if p_idx < c {
                            assert(game@.players[p_idx as int].id != p.id);
                        }
                    }
                }
                if !seat_listed(&game.exempted, p_idx) {
                    p.hand
                } else {
                    None
                }
            } else {
                None
            };
            public.push(
                PlayerPublicState {
                    id: p.id,
                    name: p.name.clone(),
                    lives: p.lives,
                    has_blocker: p.blocker_tokens > 0,
                    has_exemption: p.exemption_tokens > 0,
                    is_eliminated: p.is_eliminated,
                    revealed_card: revealed,
                },
            );
            proof {
                assert(public@ =~= Seq::new((i + 1) as nat, |k: int| public_view(game@, k)));
            }
            i = i + 1;
        }
        let me = &game.players[pidx];
        Some(
            PlayerGameState {
                round_number: game.round_number,
                your_card: me.hand,
                your_lives: me.lives,
                your_exemption_tokens: me.exemption_tokens,
                your_blocker_tokens: me.blocker_tokens,
                players: public,
                phase: phase_str,
                is_cowboy_round: game.is_cowboy_round,
                dealer_id: game.players[game.dealer_idx].id,
                current_actor: game.current_actor(),
            },
        )
    }

    /// Records the result of the game that just ended and closes it.
    pub fn record_game_result(&mut self, winner_id: PlayerId)
        ensures
            old(self).result_recorded(*final(self), winner_id),
            old(self).well_formed() ==> final(self).well_formed(),
    {
        let winner_name = match first_lobby_seat(&self.players, winner_id) {
            Some(i) => {
                proof {
                    assert forall|k: int| is_first_lobby_id(self.players@, winner_id, k) implies k
                        == i by {
                        if k < i {
                            assert(self.players@[k].id != winner_id);
                        } else if i < k {
                            assert(self.players@[i as int].id != winner_id);
                        }
                    }
                }
                self.players[i].name.clone()
            },
            None => String::from_str("Unknown"),
        };
        let round_count = match &self.game {
            Some(g) => g.round_number,
            None => 0,
        };
        let player_count = match &self.game {
            Some(g) => g.players.len(),
            None => 0,
        };
        self.game_history.push(
            GameResult { game_number: self.game_count, player_count, round_count, winner_name },
        );
        self.game = None;
        proof {
            assert(self.game_history@.drop_last() =~= old(self).game_history@);
        }
    }

}

} // verus!
