use vstd::prelude::*;

use crate::game::{error_text, events_view, Action, EventModel, Game, GameError, GameEvent, GameModel, Phase, PhaseModel};
use crate::lobby::{
    game_view, seated, shows_lobby, ClientMessage, Lobby, PlayerGameState, ServerMessage,
};
use crate::player::PlayerId;
use crate::rules::{has_player, voted};
use crate::shape::{
    law_act_keeps_well_formed, law_no_return_to_lobby, law_well_formed_can_act,
    law_well_formed_names_actor,
};

verus! {

/// How long, in seconds, the players have to vote in a cowboy round before the vote is
/// resolved with the votes in so far.
pub const COWBOY_VOTE_SECS: u64 = 5;

/// How long, in seconds, a player has to act on their turn before the default move is
/// made for them.
pub const TURN_SECS: u64 = 15;

/// The timer the server starts after handling a message.
#[derive(Debug, Clone, Copy, PartialEq, Eq, Structural)]
pub enum Timer {
    /// When it runs out, the open cowboy vote is resolved.
    CowboyVote,
    /// When it runs out, the default move is made for the player who is to act.
    Turn,
}

/// What the server does after a client's message: the messages to broadcast to the
/// whole lobby, in order, and the timer to start, if any.
pub struct Reply {
    pub broadcasts: Vec<ServerMessage>,
    pub timer: Option<Timer>,
}

/// `m` shows the lobby `l`.
pub open spec fn is_lobby_update(m: ServerMessage, l: Lobby) -> bool {
    m matches ServerMessage::LobbyUpdate { state } && shows_lobby(state, l)
}

/// `m` is an error message with this text.
pub open spec fn is_error(m: ServerMessage, text: Seq<char>) -> bool {
    m matches ServerMessage::Error { message } && message@ == text
}

/// `m` carries these game events.
pub open spec fn is_events(m: ServerMessage, evs: Seq<EventModel>) -> bool {
    m matches ServerMessage::GameEvents { events } && events_view(events@) == evs
}

/// The moves on which the game's own code gives up: moving on from the last round
/// number, and the dealer drawing from an empty deck. A running game takes any other.
pub open spec fn action_runs(g: GameModel, id: PlayerId, action: Action) -> bool {
    &&& action is NextRound && g.phase is RoundEnd ==> g.round_number < u32::MAX
    &&& action is TakeOffTop && g.phase is DealerTurn && g.actor() == Some(id) ==> g.deck.len() > 0
}

/// What follows an action that left the game as `g1`: when it was taken and leaves every
/// vote of a cowboy round in, the vote is resolved at once. `post` is the game afterwards,
/// with its log taken, and `r` lists the events emitted, in order.
pub open spec fn followed_up(
    g1: GameModel,
    r1: Result<(), GameError>,
    post: GameModel,
    r: Result<Seq<EventModel>, GameError>,
) -> bool {
    match r1 {
        Err(e) => post == g1 && r == Err::<Seq<EventModel>, GameError>(e),
        Ok(_) => if g1.all_voted() {
            let g2 = g1.cleared_log().resolve_step().0;
            post == g2.cleared_log() && r == Ok::<Seq<EventModel>, GameError>(g1.events + g2.events)
        } else {
            post == g1.cleared_log() && r == Ok::<Seq<EventModel>, GameError>(g1.events)
        },
    }
}

/// What an action of `id` does to the running game `g` in a session: the action runs
/// on the game with its log emptied, and is followed up as `followed_up` says.
pub open spec fn played(
    g: GameModel,
    id: PlayerId,
    action: Action,
    post: GameModel,
    r: Result<Seq<EventModel>, GameError>,
) -> bool {
    exists|g1: GameModel, r1: Result<(), GameError>|
        #![trigger g.cleared_log().act_step(g1, id, action, r1)]
        g.cleared_log().act_step(g1, id, action, r1) && followed_up(g1, r1, post, r)
}

/// The events of a result, as models.
pub open spec fn listed(r: Result<Vec<GameEvent>, GameError>) -> Result<Seq<EventModel>, GameError> {
    match r {
        Ok(v) => Ok(events_view(v@)),
        Err(e) => Err(e),
    }
}

/// Emptying the log changes nobody's vote.
proof fn lemma_log_keeps_votes(g: GameModel)
    ensures
        g.cleared_log().all_voted() == g.all_voted(),
{
    let c = g.cleared_log();
    if let PhaseModel::CowboyVote { votes } = g.phase {
        if g.all_voted() {
            assert forall|k: int| 0 <= k < c.alive_order.len() implies voted(
                votes,
                #[trigger] c.seat_id(k),
            ) by {
                assert(voted(votes, g.seat_id(k)));
            }
        }
        if c.all_voted() {
            assert forall|k: int| 0 <= k < g.alive_order.len() implies voted(
                votes,
                #[trigger] g.seat_id(k),
            ) by {
                assert(voted(votes, c.seat_id(k)));
            }
        }
    }
}

/// Runs an action of `id` and, when it leaves every vote of a cowboy round in, resolves
/// the vote; returns the events emitted, in order.
fn play(game: &mut Game, id: PlayerId, action: Action) -> (r: Result<Vec<GameEvent>, GameError>)
    requires
        old(game)@.well_formed(),
        !(old(game)@.phase is Lobby),
        action_runs(old(game)@, id, action),
    ensures
        final(game)@.well_formed(),
        !(final(game)@.phase is Lobby),
        played(old(game)@, id, action, final(game)@, listed(r)),
{
    let ghost g0 = game@;
    proof {
        law_well_formed_can_act(g0, id, action);
    }
    let res = game.act(id, action);
    let ghost g1 = game@;
    proof {
        law_act_keeps_well_formed(g0, g1, id, action, res);
        law_no_return_to_lobby(g0, g1, id, action, res);
    }
    match res {
        Err(e) => {
            proof {
                assert(followed_up(g1, res, game@, listed(Err(e))));
            }
            Err(e)
        },
        Ok(()) => {
            let mut events = game.take_events();
            assert(game@ == g1.cleared_log());
            if game.all_cowboy_votes_in() {
                let ghost c = game@;
                proof {
                    lemma_log_keeps_votes(g1);
                    law_well_formed_can_act(c, 0, Action::ResolveCowboyVote);
                    assert(c.cleared_log() == c);
                }
                let res2 = game.act(0, Action::ResolveCowboyVote);
                proof {
                    law_act_keeps_well_formed(c, game@, 0, Action::ResolveCowboyVote, res2);
                    law_no_return_to_lobby(c, game@, 0, Action::ResolveCowboyVote, res2);
                    assert(res2 is Ok);
                }
                if res2.is_ok() {
                    let ghost g2 = game@;
                    let mut more = game.take_events();
                    events.append(&mut more);
                    proof {
                        assert(events_view(events@) =~= g1.events + g2.events);
                        assert(followed_up(g1, res, game@, listed(Ok(events))));
                    }
                }
            } else {
                proof {
                    lemma_log_keeps_votes(g1);
                    assert(followed_up(g1, res, game@, listed(Ok(events))));
                }
            }
            Ok(events)
        },
    }
}

/// `b` is `a` but for its game.
pub open spec fn same_but_game(a: Lobby, b: Lobby) -> bool {
    &&& b.code == a.code
    &&& b.players == a.players
    &&& b.host_id == a.host_id
    &&& b.game_history == a.game_history
    &&& b.game_count == a.game_count
    &&& b.next_player_id == a.next_player_id
}

/// The winner of the lobby's game, once it is over and won.
pub open spec fn winner_of(l: Lobby) -> Option<PlayerId> {
    match l.game {
        Some(g) => match g@.phase {
            PhaseModel::GameOver { winner } => winner,
            _ => None,
        },
        None => None,
    }
}

/// After a move that emitted `evs` and left the lobby as `l`: the events are broadcast,
/// and when the move won the game its result is recorded and the lobby shown again.
pub open spec fn announced(l: Lobby, evs: Seq<EventModel>, post: Lobby, bs: Seq<ServerMessage>) -> bool {
    match winner_of(l) {
        Some(w) => {
            &&& l.result_recorded(post, w)
            &&& bs.len() == 2
            &&& is_events(bs[0], evs)
            &&& is_lobby_update(bs[1], post)
        },
        None => {
            &&& post == l
            &&& bs.len() == 1
            &&& is_events(bs[0], evs)
        },
    }
}

/// The timer to start once a move left the game as `g`: the cowboy vote's while a vote
/// is open, otherwise the turn timer while somebody is to act and the game goes on.
pub open spec fn timer_after(g: GameModel) -> Option<Timer> {
    if g.phase is CowboyVote {
        Some(Timer::CowboyVote)
    } else if g.actor() is Some && !(g.phase is GameOver) {
        Some(Timer::Turn)
    } else {
        None
    }
}

/// The timer to start for the lobby's game.
pub open spec fn timer_for(l: Lobby) -> Option<Timer> {
    match l.game {
        Some(g) => timer_after(g@),
        None => None,
    }
}

/// Whether `id` plays in the lobby's game.
pub open spec fn in_game(l: Lobby, id: PlayerId) -> bool {
    l.game matches Some(g) && has_player(g@.players, id)
}

/// `m` shows `id` the lobby's game.
pub open spec fn is_game_view(m: ServerMessage, l: Lobby, id: PlayerId) -> bool {
    &&& m matches ServerMessage::GameState { state }
    &&& l.game matches Some(g)
    &&& game_view(m->GameState_state, g@, id)
}

/// The messages on which the lobby's own code gives up: starting a game with no lives or
/// more players than cards, or with the game counter spent; and the moves of
/// `action_runs`.
pub open spec fn message_runs(l: Lobby, id: PlayerId, msg: ClientMessage) -> bool {
    match msg {
        ClientMessage::StartGame { lives, .. } => l.host_id == id && seated(l.players@).len() >= 2
            ==> lives > 0 && seated(l.players@).len() <= 52 && l.game_count < u32::MAX,
        ClientMessage::GameAction { action } => l.game matches Some(g) ==> action_runs(
            g@,
            id,
            action,
        ),
        _ => true,
    }
}

impl Lobby {
    /// `mid` is the lobby after `id`'s move `action` on its running game, as `played`
    /// leaves it, with `r` the refusal or the events emitted.
    pub open spec fn moved(
        self,
        id: PlayerId,
        action: Action,
        mid: Lobby,
        r: Result<Seq<EventModel>, GameError>,
    ) -> bool {
        &&& same_but_game(self, mid)
        &&& self.game matches Some(g)
        &&& mid.game matches Some(fg)
        &&& played(g@, id, action, fg@, r)
    }

    /// The answer to `id`'s move `action`: refused with the message of its refusal, or
    /// announced, with the timer the new state calls for.
    pub open spec fn move_answered(
        self,
        id: PlayerId,
        action: Action,
        post: Lobby,
        bs: Seq<ServerMessage>,
        timer: Option<Timer>,
    ) -> bool {
        exists|mid: Lobby, r: Result<Seq<EventModel>, GameError>|
            #![trigger self.moved(id, action, mid, r)]
            self.moved(id, action, mid, r) && match r {
                Err(e) => post == mid && bs.len() == 1 && is_error(bs[0], error_text(e))
                    && timer is None,
                Ok(evs) => announced(mid, evs, post, bs) && timer == timer_for(mid),
            }
    }

    /// The answer to a client's message from `id`: what the lobby does and broadcasts,
    /// and which timer it starts.
    pub open spec fn answered(
        self,
        id: PlayerId,
        msg: ClientMessage,
        post: Lobby,
        bs: Seq<ServerMessage>,
        timer: Option<Timer>,
    ) -> bool {
        match msg {
            ClientMessage::StartGame { lives, blocker_tokens, exemption_tokens } => exists|
                mid: Lobby,
                r: Result<(), String>,
            |
                #![trigger self.game_started(mid, id, lives, blocker_tokens, exemption_tokens, r)]
                self.game_started(mid, id, lives, blocker_tokens, exemption_tokens, r) && match r {
                    Err(e) => post == mid && bs.len() == 1 && is_error(bs[0], e@) && timer is None,
                    Ok(_) => {
                        &&& same_but_game(mid, post)
                        &&& mid.game matches Some(g)
                        &&& post.game matches Some(pg)
                        &&& pg@ == g@.cleared_log()
                        &&& bs.len() == 2
                        &&& is_events(bs[0], g@.events)
                        &&& is_lobby_update(bs[1], post)
                        &&& timer == Some(
                            if g@.phase is CowboyVote {
                                Timer::CowboyVote
                            } else {
                                Timer::Turn
                            },
                        )
                    },
                },
            ClientMessage::GameAction { action } => match self.game {
                None => post == self && bs.len() == 1 && is_error(bs[0], "No active game"@)
                    && timer is None,
                Some(_) => self.move_answered(id, action, post, bs, timer),
            },
            ClientMessage::TransferHost { to_player_id } => exists|r: Result<(), String>|
                #![trigger self.host_transferred(post, id, to_player_id, r)]
                self.host_transferred(post, id, to_player_id, r) && timer is None && bs.len() == 1
                    && match r {
                    Ok(_) => is_lobby_update(bs[0], post),
                    Err(e) => is_error(bs[0], e@),
                },
            ClientMessage::KickPlayer { player_id } => if self.host_id != id {
                post == self && bs.len() == 1 && is_error(bs[0], "Only the host can kick players"@)
                    && timer is None
            } else {
                exists|r: Result<(), String>|
                    #![trigger self.player_removed(post, player_id, r)]
                    self.player_removed(post, player_id, r) && timer is None && bs.len() == 1
                        && match r {
                        Ok(_) => is_lobby_update(bs[0], post),
                        Err(e) => is_error(bs[0], e@),
                    }
            },
        }
    }

    /// Broadcasts the events of a move and, when the move won the game, records the
    /// result and shows the lobby again.
    fn announce(&mut self, events: Vec<GameEvent>) -> (bs: Vec<ServerMessage>)
        requires
            old(self).well_formed(),
        ensures
            final(self).well_formed(),
            announced(*old(self), events_view(events@), *final(self), bs@),
    {
        let winner = match &self.game {
            Some(g) => match &g.phase {
                Phase::GameOver { winner } => *winner,
                _ => None,
            },
            None => None,
        };
        let ghost evs = events_view(events@);
        let mut bs: Vec<ServerMessage> = Vec::new();
        bs.push(ServerMessage::GameEvents { events });
        if let Some(w) = winner {
            self.record_game_result(w);
            let state = self.lobby_state();
            bs.push(ServerMessage::LobbyUpdate { state });
        }
        bs
    }

    /// The timer for the game `game` after a move.
    fn timer_after_move(game: &Game) -> (t: Option<Timer>)
        requires
            game@.well_formed(),
            !(game@.phase is Lobby),
        ensures
            t == timer_after(game@),
    {
        proof {
            law_well_formed_names_actor(game@);
        }
        if let Phase::CowboyVote { .. } = game.phase {
            Some(Timer::CowboyVote)
        } else if game.current_actor().is_some() && !matches!(game.phase, Phase::GameOver { .. }) {
            Some(Timer::Turn)
        } else {
            None
        }
    }

    /// Handles a message from the client of player `id`: starting the game, a move in it,
    /// passing the host role on, or kicking a player. After a move that leaves every vote
    /// of a cowboy round in, the vote is resolved at once; a won game is recorded.
    pub fn handle_client_message(&mut self, id: PlayerId, msg: ClientMessage) -> (reply: Reply)
        requires
            old(self).well_formed(),
            message_runs(*old(self), id, msg),
        ensures
            final(self).well_formed(),
            old(self).answered(id, msg, *final(self), reply.broadcasts@, reply.timer),
    {
        let ghost l0 = *self;
        let mut bs: Vec<ServerMessage> = Vec::new();
        match msg {
            ClientMessage::StartGame { lives, blocker_tokens, exemption_tokens } => {
                let r = self.start_game(id, lives, blocker_tokens, exemption_tokens);
                let ghost mid = *self;
                let ghost rg = r;
                match r {
                    Err(e) => {
                        bs.push(ServerMessage::Error { message: e });
                        proof {
                            assert(l0.game_started(mid, id, lives, blocker_tokens, exemption_tokens, rg));
                        }
                        Reply { broadcasts: bs, timer: None }
                    },
                    Ok(()) => {
                        let taken = self.game.take();
                        match taken {
                            Some(mut game) => {
                                let ghost g = game@;
                                let events = game.take_events();
                                let timer = if let Phase::CowboyVote { .. } = game.phase {
                                    Timer::CowboyVote
                                } else {
                                    Timer::Turn
                                };
                                self.game = Some(game);
                                bs.push(ServerMessage::GameEvents { events });
                                let state = self.lobby_state();
                                bs.push(ServerMessage::LobbyUpdate { state });
                                proof {
                                    assert(l0.game_started(mid, id, lives, blocker_tokens, exemption_tokens, rg));
                                }
                                Reply { broadcasts: bs, timer: Some(timer) }
                            },
                            None => {
                                proof {
                                    assert(false);
                                }
                                Reply { broadcasts: bs, timer: None }
                            },
                        }
                    },
                }
            },
            ClientMessage::GameAction { action } => {
                let taken = self.game.take();
                match taken {
                    None => {
                        bs.push(ServerMessage::Error { message: String::from_str("No active game") });
                        proof {
                            reveal_strlit("No active game");
                        }
                        Reply { broadcasts: bs, timer: None }
                    },
                    Some(mut game) => {
                        let r = play(&mut game, id, action);
                        let timer = Self::timer_after_move(&game);
                        self.game = Some(game);
                        let ghost mid = *self;
                        let ghost rl = listed(r);
                        match r {
                            Err(e) => {
                                bs.push(ServerMessage::Error { message: e.to_string() });
                                proof {
                                    assert(l0.moved(id, action, mid, rl));
                                }
                                Reply { broadcasts: bs, timer: None }
                            },
                            Ok(events) => {
                                let out = self.announce(events);
                                proof {
                                    assert(l0.moved(id, action, mid, rl));
                                }
                                Reply { broadcasts: out, timer }
                            },
                        }
                    },
                }
            },
            ClientMessage::TransferHost { to_player_id } => {
                let r = self.transfer_host(id, to_player_id);
                let ghost rt = r;
                match r {
                    Ok(()) => {
                        let state = self.lobby_state();
                        bs.push(ServerMessage::LobbyUpdate { state });
                    },
                    Err(e) => {
                        bs.push(ServerMessage::Error { message: e });
                    },
                }
                proof {
                    assert(l0.host_transferred(*self, id, to_player_id, rt));
                }
                Reply { broadcasts: bs, timer: None }
            },
            ClientMessage::KickPlayer { player_id } => {
                if self.host_id != id {
                    bs.push(ServerMessage::Error {
                        message: String::from_str("Only the host can kick players"),
                    });
                    proof {
                        reveal_strlit("Only the host can kick players");
                    }
                    return Reply { broadcasts: bs, timer: None };
                }
                let r = self.remove_player(player_id);
                let ghost rk = r;
                match r {
                    Ok(()) => {
                        let state = self.lobby_state();
                        bs.push(ServerMessage::LobbyUpdate { state });
                    },
                    Err(e) => {
                        bs.push(ServerMessage::Error { message: e });
                    },
                }
                proof {
                    assert(l0.player_removed(*self, player_id, rk));
                }
                Reply { broadcasts: bs, timer: None }
            },
        }
    }

    /// Who the turn timer waits on, and the move it makes for them when time runs out.
    pub fn turn_timer_watch(&self) -> (w: Option<(PlayerId, Action)>)
        requires
            self.well_formed(),
        ensures
            w == turn_watch(*self),
    {
        let game = match &self.game {
            Some(g) => g,
            None => return None,
        };
        proof {
            law_well_formed_names_actor(game@);
        }
        let actor = match game.current_actor() {
            Some(a) => a,
            None => return None,
        };
        match default_action(&game.phase) {
            Some(m) => Some((actor, m)),
            None => None,
        }
    }

    /// When the turn timer for `actor` and the move `action` runs out: if `actor` is still
    /// to act in a phase with that default move, the move is made for them and announced.
    pub fn turn_timer_expired(&mut self, actor: PlayerId, action: Action) -> (bs: Vec<ServerMessage>)
        requires
            old(self).well_formed(),
        ensures
            final(self).well_formed(),
            turn_watch(*old(self)) != Some((actor, action)) ==> *final(self) == *old(self)
                && bs@.len() == 0,
            turn_watch(*old(self)) == Some((actor, action)) ==> exists|
                mid: Lobby,
                r: Result<Seq<EventModel>, GameError>,
            |
                #![trigger old(self).moved(actor, action, mid, r)]
                old(self).moved(actor, action, mid, r) && match r {
                    Err(_) => *final(self) == mid && bs@.len() == 0,
                    Ok(evs) => announced(mid, evs, *final(self), bs@),
                },
    {
        let ghost l0 = *self;
        let watch = self.turn_timer_watch();
        let still = match watch {
            Some((a, m)) => a == actor && m == action,
            None => false,
        };
        if !still {
            return Vec::new();
        }
        let taken = self.game.take();
        let mut game = match taken {
            Some(g) => g,
            None => {
                proof {
                    assert(false);
                }
                return Vec::new();
            },
        };
        let r = play(&mut game, actor, action);
        self.game = Some(game);
        let ghost mid = *self;
        let ghost rl = listed(r);
        proof {
            assert(l0.moved(actor, action, mid, rl));
        }
        match r {
            Err(_) => Vec::new(),
            Ok(events) => self.announce(events),
        }
    }

    /// Whether a cowboy vote is open, for its timer to resolve.
    pub fn cowboy_vote_open(&self) -> (b: bool)
        ensures
            b == vote_open(*self),
    {
        match &self.game {
            Some(g) => matches!(g.phase, Phase::CowboyVote { .. }),
            None => false,
        }
    }

    /// When the cowboy vote's timer runs out: if the vote is still open it is resolved with
    /// the votes in so far, and announced.
    pub fn cowboy_timer_expired(&mut self) -> (bs: Vec<ServerMessage>)
        requires
            old(self).well_formed(),
        ensures
            final(self).well_formed(),
            !vote_open(*old(self)) ==> *final(self) == *old(self) && bs@.len() == 0,
            vote_open(*old(self)) ==> exists|mid: Lobby|
                #![trigger vote_resolved(*old(self), mid)]
                vote_resolved(*old(self), mid) && announced(
                    mid,
                    resolution_events(*old(self)),
                    *final(self),
                    bs@,
                ),
    {
        let ghost l0 = *self;
        if !self.cowboy_vote_open() {
            return Vec::new();
        }
        let taken = self.game.take();
        let mut game = match taken {
            Some(g) => g,
            None => {
                proof {
                    assert(false);
                }
                return Vec::new();
            },
        };
        let ghost g0 = game@;
        proof {
            law_well_formed_can_act(g0, 0, Action::ResolveCowboyVote);
        }
        let r = game.act(0, Action::ResolveCowboyVote);
        proof {
            law_act_keeps_well_formed(g0, game@, 0, Action::ResolveCowboyVote, r);
            law_no_return_to_lobby(g0, game@, 0, Action::ResolveCowboyVote, r);
        }
        if r.is_err() {
            proof {
                assert(false);
            }
            self.game = Some(game);
            return Vec::new();
        }
        let events = game.take_events();
        self.game = Some(game);
        let ghost mid = *self;
        proof {
            assert(vote_resolved(l0, mid));
        }
        self.announce(events)
    }

    /// The messages a player's client gets on connecting: a welcome with their id and
    /// session token, the lobby, and their view of the game when they play in one.
    pub fn greeting(&self, id: PlayerId, session_token: String) -> (ms: Vec<ServerMessage>)
        requires
            self.well_formed(),
        ensures
            ms@.len() == if in_game(*self, id) {
                3int
            } else {
                2int
            },
            ms@[0] == (ServerMessage::Welcome { player_id: id, session_token }),
            is_lobby_update(ms@[1], *self),
            in_game(*self, id) ==> is_game_view(ms@[2], *self, id),
    {
        let mut ms: Vec<ServerMessage> = Vec::new();
        ms.push(ServerMessage::Welcome { player_id: id, session_token });
        let state = self.lobby_state();
        ms.push(ServerMessage::LobbyUpdate { state });
        if let Some(state) = self.game_state_for(id) {
            ms.push(ServerMessage::GameState { state });
        }
        ms
    }

    /// What a client is sent of a message broadcast to the lobby: the message itself, but
    /// for a game state, which is personal; after game events, the player's own view of
    /// the game when they play in one.
    pub fn relay(&self, id: PlayerId, msg: ServerMessage) -> (ms: Vec<ServerMessage>)
        requires
            self.well_formed(),
        ensures
            ({
                let k: int = if msg is GameState {
                    0
                } else {
                    1
                };
                &&& k == 1 ==> ms@[0] == msg
                &&& msg is GameEvents && in_game(*self, id) ==> ms@.len() == k + 1
                    && is_game_view(ms@[k], *self, id)
                &&& !(msg is GameEvents && in_game(*self, id)) ==> ms@.len() == k
            }),
    {
        let mut ms: Vec<ServerMessage> = Vec::new();
        let events = matches!(msg, ServerMessage::GameEvents { .. });
        if !matches!(msg, ServerMessage::GameState { .. }) {
            ms.push(msg);
        }
        if events {
            if let Some(state) = self.game_state_for(id) {
                ms.push(ServerMessage::GameState { state });
            }
        }
        ms
    }

    /// The player's view of the running game, when they play in it.
    fn game_state_for(&self, id: PlayerId) -> (st: Option<PlayerGameState>)
        requires
            self.well_formed(),
        ensures
            in_game(*self, id) ==> (st matches Some(s) && self.game matches Some(g) && game_view(
                s,
                g@,
                id,
            )),
            !in_game(*self, id) ==> st is None,
    {
        proof {
            if self.game is Some {
                law_well_formed_names_actor(self.game->0@);
            }
        }
        self.player_game_state(id)
    }
}

/// The move made for a player whose time ran out: a normal turn is passed, a proposed
/// trade accepted, and the dealer keeps their card.
pub open spec fn default_move(phase: PhaseModel) -> Option<Action> {
    match phase {
        PhaseModel::NormalTurn { .. } => Some(Action::Pass),
        PhaseModel::WaitingForBlock { .. } => Some(Action::AcceptTrade),
        PhaseModel::DealerTurn => Some(Action::DealerPass),
        _ => None,
    }
}

/// The move made for a player whose time ran out in this phase.
fn default_action(phase: &Phase) -> (a: Option<Action>)
    ensures
        a == default_move(phase@),
{
    match phase {
        Phase::NormalTurn { .. } => Some(Action::Pass),
        Phase::WaitingForBlock { .. } => Some(Action::AcceptTrade),
        Phase::DealerTurn => Some(Action::DealerPass),
        _ => None,
    }
}

/// Who the turn timer waits on in the lobby, and the move it makes for them.
pub open spec fn turn_watch(l: Lobby) -> Option<(PlayerId, Action)> {
    match l.game {
        Some(g) => match (g@.actor(), default_move(g@.phase)) {
            (Some(a), Some(m)) => Some((a, m)),
            _ => None,
        },
        None => None,
    }
}

/// `mid` is the lobby `l` once its open cowboy vote was resolved with the votes in so far,
/// and the events of the resolution taken from the game's log.
pub open spec fn vote_resolved(l: Lobby, mid: Lobby) -> bool {
    &&& same_but_game(l, mid)
    &&& l.game matches Some(g)
    &&& mid.game matches Some(fg)
    &&& fg@ == g@.cleared_log().resolve_step().0.cleared_log()
}

/// The events of resolving the lobby's open cowboy vote.
pub open spec fn resolution_events(l: Lobby) -> Seq<EventModel> {
    match l.game {
        Some(g) => g@.cleared_log().resolve_step().0.events,
        None => seq![],
    }
}

/// A cowboy vote is open in the lobby's game.
pub open spec fn vote_open(l: Lobby) -> bool {
    l.game matches Some(g) && g@.phase is CowboyVote
}

} // verus!
