use vstd::prelude::*;

use crate::card::{Card, Deck, fresh_deck};
use crate::chance::random_below;
use crate::rules::{
    lemma_wrap, active_seats, dealt_events, held_cards, king_seats, lemma_alive_seats,
    lemma_king_seats, seat_ids, equipped, seat_after, lemma_seat_steps, is_next_alive_step,
    next_alive_seat, alive_indices, cleared_hands, revived, lemma_alive_indices, exempt_seats, final_votes, lemma_final_votes, vote_events, alive_seats, card_value, has_player,
    is_first_with_id, lemma_active_seats, lemma_loser_ids,
    lemma_reveals, index_of, loser_ids, lowest_value, round_order, shown_cards, swap_hands, voted,
    losses_taken, lemma_losses_frame, lemma_first_seat_exists, votes_taken, lemma_votes_frame,
};
use crate::player::{Player, PlayerId};
use crate::text::{decimal, decimal_text};

verus! {

/// Why an action was refused.
#[derive(Debug, Clone, Copy, PartialEq, Eq, Structural)]
pub enum GameError {
    NotEnoughPlayers,
    NotInLobby,
    NotYourTurn(PlayerId),
    InvalidAction,
    PlayerNotFound(PlayerId),
    NoBlockerToken(PlayerId),
    NoExemptionToken(PlayerId),
    PlayerEliminated(PlayerId),
    GameOver,
}

/// The message a refused action is answered with.
pub open spec fn error_text(e: GameError) -> Seq<char> {
    match e {
        GameError::NotEnoughPlayers => "Not enough players to start (need at least 2)"@,
        GameError::NotInLobby => "Game is not in lobby state"@,
        GameError::NotYourTurn(id) => "It is not player "@ + decimal(id as nat) + "'s turn"@,
        GameError::InvalidAction => "Invalid action for current game phase"@,
        GameError::PlayerNotFound(id) => "Player "@ + decimal(id as nat) + " not found"@,
        GameError::NoBlockerToken(id) => "Player "@ + decimal(id as nat) + " has no blocker token"@,
        GameError::NoExemptionToken(id) => "Player "@ + decimal(id as nat)
            + " has no exemption token"@,
        GameError::PlayerEliminated(id) => "Player "@ + decimal(id as nat) + " is eliminated"@,
        GameError::GameOver => "Game is already over"@,
    }
}

impl GameError {
    /// The message for this refusal.
    pub fn to_string(&self) -> (s: String)
        ensures
            s@ == error_text(*self),
    {
        match *self {
            GameError::NotEnoughPlayers => String::from_str(
                "Not enough players to start (need at least 2)",
            ),
            GameError::NotInLobby => String::from_str("Game is not in lobby state"),
            GameError::NotYourTurn(id) => around("It is not player ", id, "'s turn"),
            GameError::InvalidAction => String::from_str("Invalid action for current game phase"),
            GameError::PlayerNotFound(id) => around("Player ", id, " not found"),
            GameError::NoBlockerToken(id) => around("Player ", id, " has no blocker token"),
            GameError::NoExemptionToken(id) => around("Player ", id, " has no exemption token"),
            GameError::PlayerEliminated(id) => around("Player ", id, " is eliminated"),
            GameError::GameOver => String::from_str("Game is already over"),
        }
    }
}

/// `before`, then `id` in decimal, then `after`.
fn around(before: &str, id: PlayerId, after: &str) -> (s: String)
    ensures
        s@ == before@ + decimal(id as nat) + after@,
{
    let head = String::from_str(before);
    let num = decimal_text(id);
    let s = head.concat(num.as_str());
    s.concat(after)
}

/// The phase of the game state machine.
#[derive(Debug, Clone, PartialEq)]
pub enum Phase {
    /// Waiting in lobby for host to start.
    Lobby,
    /// Cards have been dealt; checking for kings.
    KingCheck,
    /// Normal round: a non-dealer player is deciding to pass or trade.
    NormalTurn {
        /// Index into `alive_order` for the current actor.
        current_idx: usize,
    },
    /// A trade has been proposed; waiting for the target to block or accept.
    WaitingForBlock {
        /// The player proposing the trade.
        trader_idx: usize,
        /// The player who can block (to the left of trader).
        target_idx: usize,
    },
    /// Dealer's turn: pass or take off the top.
    DealerTurn,
    /// Cowboy round: collecting exemption votes (staged, not revealed).
    CowboyVote {
        /// Staged votes: player id and whether that player exempts.
        votes: Vec<(PlayerId, bool)>,
    },
    /// All active players reveal cards and lowest loses a life.
    Showdown,
    /// Round is over, waiting for the next round.
    RoundEnd,
    /// Game is over, with its winner.
    GameOver { winner: Option<PlayerId> },
}

/// Where a cowboy round came from.
#[derive(Debug, Clone, Copy, PartialEq, Eq, Structural)]
pub enum CowboySource {
    Deal,
    DealerDraw,
}

/// Events emitted by the game engine for the frontend to animate.
#[derive(Debug, Clone)]
pub enum GameEvent {
    GameStarted { dealer_id: PlayerId },
    RoundStarted { round_number: u32, dealer_id: PlayerId },
    CardDealt { player_id: PlayerId },
    CowboyTriggered { king_holders: Vec<PlayerId>, source: CowboySource },
    NormalTurnStarted { player_id: PlayerId },
    PlayerPassed { player_id: PlayerId },
    TradeProposed { from_id: PlayerId, to_id: PlayerId },
    TradeBlocked { blocker_id: PlayerId },
    TradeCompleted { from_id: PlayerId, to_id: PlayerId },
    DealerTurnStarted { dealer_id: PlayerId },
    DealerPassed { dealer_id: PlayerId },
    DealerDrewCard { dealer_id: PlayerId, card: Card },
    CowboyVoteStarted,
    PlayerExempted { player_id: PlayerId },
    PlayerStayedIn { player_id: PlayerId },
    ShowdownResult { reveals: Vec<(PlayerId, Card)>, losers: Vec<PlayerId>, is_cowboy_round: bool },
    PlayerEliminated { player_id: PlayerId },
    EveryoneExempted,
    ResurrectionTriggered,
    GameWon { winner_id: PlayerId },
    DealerChipPassed { new_dealer_id: PlayerId },
}

/// Actions that clients can send to the game.
#[derive(Debug, Clone, Copy, PartialEq, Eq, Structural)]
pub enum Action {
    /// Host starts the game with configuration.
    StartGame { lives: u8, blocker_tokens: u8, exemption_tokens: u8 },
    /// Player passes (keeps their card).
    Pass,
    /// Player proposes a trade with the player to their left.
    Trade,
    /// Target player blocks a proposed trade.
    Block,
    /// Target player accepts a proposed trade.
    AcceptTrade,
    /// Dealer passes (keeps their card).
    DealerPass,
    /// Dealer draws from the top of the deck.
    TakeOffTop,
    /// Player submits their cowboy exemption vote (staged, not yet applied).
    CowboyVote { exempt: bool },
    /// Server resolves the cowboy vote; players who have not voted get the default.
    ResolveCowboyVote,
    /// Advance from the end of a round to the next round.
    NextRound,
}

/// A phase, with its staged votes as a sequence.
#[verifier::ext_equal]
pub enum PhaseModel {
    Lobby,
    KingCheck,
    NormalTurn { current_idx: usize },
    WaitingForBlock { trader_idx: usize, target_idx: usize },
    DealerTurn,
    CowboyVote { votes: Seq<(PlayerId, bool)> },
    Showdown,
    RoundEnd,
    GameOver { winner: Option<PlayerId> },
}

/// An event, with its lists as sequences.
#[verifier::ext_equal]
pub enum EventModel {
    GameStarted { dealer_id: PlayerId },
    RoundStarted { round_number: u32, dealer_id: PlayerId },
    CardDealt { player_id: PlayerId },
    CowboyTriggered { king_holders: Seq<PlayerId>, source: CowboySource },
    NormalTurnStarted { player_id: PlayerId },
    PlayerPassed { player_id: PlayerId },
    TradeProposed { from_id: PlayerId, to_id: PlayerId },
    TradeBlocked { blocker_id: PlayerId },
    TradeCompleted { from_id: PlayerId, to_id: PlayerId },
    DealerTurnStarted { dealer_id: PlayerId },
    DealerPassed { dealer_id: PlayerId },
    DealerDrewCard { dealer_id: PlayerId, card: Card },
    CowboyVoteStarted,
    PlayerExempted { player_id: PlayerId },
    PlayerStayedIn { player_id: PlayerId },
    ShowdownResult { reveals: Seq<(PlayerId, Card)>, losers: Seq<PlayerId>, is_cowboy_round: bool },
    PlayerEliminated { player_id: PlayerId },
    EveryoneExempted,
    ResurrectionTriggered,
    GameWon { winner_id: PlayerId },
    DealerChipPassed { new_dealer_id: PlayerId },
}

impl View for Phase {
    type V = PhaseModel;

    open spec fn view(&self) -> PhaseModel {
        match self {
            Phase::Lobby => PhaseModel::Lobby,
            Phase::KingCheck => PhaseModel::KingCheck,
            Phase::NormalTurn { current_idx } => PhaseModel::NormalTurn { current_idx: *current_idx },
            Phase::WaitingForBlock { trader_idx, target_idx } => PhaseModel::WaitingForBlock {
                trader_idx: *trader_idx,
                target_idx: *target_idx,
            },
            Phase::DealerTurn => PhaseModel::DealerTurn,
            Phase::CowboyVote { votes } => PhaseModel::CowboyVote { votes: votes@ },
            Phase::Showdown => PhaseModel::Showdown,
            Phase::RoundEnd => PhaseModel::RoundEnd,
            Phase::GameOver { winner } => PhaseModel::GameOver { winner: *winner },
        }
    }
}

impl View for GameEvent {
    type V = EventModel;

    open spec fn view(&self) -> EventModel {
        match self {
            GameEvent::GameStarted { dealer_id } => EventModel::GameStarted { dealer_id: *dealer_id },
            GameEvent::RoundStarted { round_number, dealer_id } => EventModel::RoundStarted {
                round_number: *round_number,
                dealer_id: *dealer_id,
            },
            GameEvent::CardDealt { player_id } => EventModel::CardDealt { player_id: *player_id },
            GameEvent::CowboyTriggered { king_holders, source } => EventModel::CowboyTriggered {
                king_holders: king_holders@,
                source: *source,
            },
            GameEvent::NormalTurnStarted { player_id } => EventModel::NormalTurnStarted {
                player_id: *player_id,
            },
            GameEvent::PlayerPassed { player_id } => EventModel::PlayerPassed { player_id: *player_id },
            GameEvent::TradeProposed { from_id, to_id } => EventModel::TradeProposed {
                from_id: *from_id,
                to_id: *to_id,
            },
            GameEvent::TradeBlocked { blocker_id } => EventModel::TradeBlocked {
                blocker_id: *blocker_id,
            },
            GameEvent::TradeCompleted { from_id, to_id } => EventModel::TradeCompleted {
                from_id: *from_id,
                to_id: *to_id,
            },
            GameEvent::DealerTurnStarted { dealer_id } => EventModel::DealerTurnStarted {
                dealer_id: *dealer_id,
            },
            GameEvent::DealerPassed { dealer_id } => EventModel::DealerPassed { dealer_id: *dealer_id },
            GameEvent::DealerDrewCard { dealer_id, card } => EventModel::DealerDrewCard {
                dealer_id: *dealer_id,
                card: *card,
            },
            GameEvent::CowboyVoteStarted => EventModel::CowboyVoteStarted,
            GameEvent::PlayerExempted { player_id } => EventModel::PlayerExempted {
                player_id: *player_id,
            },
            GameEvent::PlayerStayedIn { player_id } => EventModel::PlayerStayedIn {
                player_id: *player_id,
            },
            GameEvent::ShowdownResult { reveals, losers, is_cowboy_round } =>
                EventModel::ShowdownResult {
                    reveals: reveals@,
                    losers: losers@,
                    is_cowboy_round: *is_cowboy_round,
                },
            GameEvent::PlayerEliminated { player_id } => EventModel::PlayerEliminated {
                player_id: *player_id,
            },
            GameEvent::EveryoneExempted => EventModel::EveryoneExempted,
            GameEvent::ResurrectionTriggered => EventModel::ResurrectionTriggered,
            GameEvent::GameWon { winner_id } => EventModel::GameWon { winner_id: *winner_id },
            GameEvent::DealerChipPassed { new_dealer_id } => EventModel::DealerChipPassed {
                new_dealer_id: *new_dealer_id,
            },
        }
    }
}

/// The whole game as mathematical values.
#[verifier::ext_equal]
pub struct GameModel {
    pub players: Seq<Player>,
    pub phase: PhaseModel,
    pub deck: Seq<Card>,
    pub round_number: u32,
    pub dealer_idx: usize,
    pub alive_order: Seq<usize>,
    pub is_cowboy_round: bool,
    pub exempted: Seq<usize>,
    pub events: Seq<EventModel>,
    pub original_player_count: usize,
}

pub struct Game {
    pub players: Vec<Player>,
    pub phase: Phase,
    pub deck: Deck,
    pub round_number: u32,
    /// Index into `players` for who has the dealer chip.
    pub dealer_idx: usize,
    /// Order of alive players for the current round (indices into `players`).
    pub alive_order: Vec<usize>,
    /// Whether the current round is a cowboy round.
    pub is_cowboy_round: bool,
    /// Players who exempted this cowboy round (indices into `players`).
    pub exempted: Vec<usize>,
    /// Accumulated events from the last action.
    pub events: Vec<GameEvent>,
    /// The number of players when the game started.
    pub original_player_count: usize,
}

pub open spec fn events_view(events: Seq<GameEvent>) -> Seq<EventModel> {
    events.map_values(|e: GameEvent| e@)
}

impl View for Game {
    type V = GameModel;

    open spec fn view(&self) -> GameModel {
        GameModel {
            players: self.players@,
            phase: self.phase@,
            deck: self.deck@,
            round_number: self.round_number,
            dealer_idx: self.dealer_idx,
            alive_order: self.alive_order@,
            is_cowboy_round: self.is_cowboy_round,
            exempted: self.exempted@,
            events: events_view(self.events@),
            original_player_count: self.original_player_count,
        }
    }
}


/// The value of a shown card: its cowboy value in a cowboy round, its normal value otherwise.
fn showdown_value(card: Card, cowboy: bool) -> (v: u8)
    requires
        cowboy || !card.is_king(),
    ensures
        v as int == card_value(card, cowboy),
{
    if cowboy {
        card.rank.cowboy_value()
    } else {
        card.rank.normal_value().unwrap()
    }
}

/// Whether this id has a staged vote.
fn vote_listed(votes: &Vec<(PlayerId, bool)>, id: PlayerId) -> (b: bool)
    ensures
        b == voted(votes@, id),
{
    let mut k: usize = 0;
    while k < votes.len()
        invariant
            k <= votes@.len(),
            forall|j: int| 0 <= j < k ==> votes@[j].0 != id,
        decreases votes@.len() - k,
    {
        if votes[k].0 == id {
            assert(votes@[k as int].0 == id);
            return true;
        }
        k = k + 1;
    }
    false
}

/// A copy of the staged votes.
fn copy_votes(votes: &Vec<(PlayerId, bool)>) -> (c: Vec<(PlayerId, bool)>)
    ensures
        c@ == votes@,
{
    let mut c: Vec<(PlayerId, bool)> = Vec::new();
    let mut k: usize = 0;
    while k < votes.len()
        invariant
            k <= votes@.len(),
            c@ == votes@.take(k as int),
        decreases votes@.len() - k,
    {
        c.push(votes[k]);
        proof {
            assert(votes@.take(k + 1) =~= votes@.take(k as int).push(votes@[k as int]));
        }
        k = k + 1;
    }
    proof {
        assert(votes@.take(k as int) =~= votes@);
    }
    c
}

/// The first seat, if any, whose player has this id.
pub(crate) fn first_seat_with_id(players: &Vec<Player>, id: PlayerId) -> (r: Option<usize>)
    ensures
        r matches Some(i) ==> is_first_with_id(players@, id, i as int),
        r is None ==> !has_player(players@, id),
{
    let mut i: usize = 0;
    while i < players.len()
        invariant
            i <= players@.len(),
            forall|j: int| 0 <= j < i ==> players@[j].id != id,
        decreases players@.len() - i,
    {
        if players[i].id == id {
            return Some(i);
        }
        i = i + 1;
    }
    None
}

/// Whether a seat is listed.
pub(crate) fn seat_listed(v: &Vec<usize>, x: usize) -> (b: bool)
    ensures
        b == v@.contains(x),
{
    let mut k: usize = 0;
    while k < v.len()
        invariant
            k <= v@.len(),
            forall|j: int| 0 <= j < k ==> v@[j] != x,
        decreases v@.len() - k,
    {
        if v[k] == x {
            assert(v@[k as int] == x);
            return true;
        }
        k = k + 1;
    }
    false
}

impl Game {
    pub fn new() -> (g: Self)
        ensures
            g@ == (GameModel {
                players: seq![],
                phase: PhaseModel::Lobby,
                deck: fresh_deck(),
                round_number: 0,
                dealer_idx: 0,
                alive_order: seq![],
                is_cowboy_round: false,
                exempted: seq![],
                events: seq![],
                original_player_count: 0,
            }),
    {
        let g = Self {
            players: Vec::new(),
            phase: Phase::Lobby,
            deck: Deck::new(),
            round_number: 0,
            dealer_idx: 0,
            alive_order: Vec::new(),
            is_cowboy_round: false,
            exempted: Vec::new(),
            events: Vec::new(),
            original_player_count: 0,
        };
        assert(g@.events =~= seq![]);
        g
    }

    /// Seats a new player with no lives and no tokens; only possible in the lobby.
    pub fn add_player(&mut self, id: PlayerId, name: String) -> (r: Result<(), GameError>)
        ensures
            old(self)@.phase is Lobby ==> r is Ok && final(self)@ == (GameModel {
                players: old(self)@.players.push(
                    Player {
                        id,
                        name,
                        lives: 0,
                        exemption_tokens: 0,
                        blocker_tokens: 0,
                        hand: None,
                        is_eliminated: false,
                    },
                ),
                ..old(self)@
            }),
            !(old(self)@.phase is Lobby) ==> r == Err::<(), GameError>(GameError::NotInLobby)
                && final(self)@ == old(self)@,
    {
        if let Phase::Lobby = self.phase {
            self.players.push(Player::new(id, name, 0, 0, 0));
            Ok(())
        } else {
            Err(GameError::NotInLobby)
        }
    }

    /// Takes the accumulated events, leaving none behind.
    pub fn take_events(&mut self) -> (ev: Vec<GameEvent>)
        ensures
            events_view(ev@) == old(self)@.events,
            final(self)@ == (GameModel { events: seq![], ..old(self)@ }),
    {
        let mut ev: Vec<GameEvent> = Vec::new();
        std::mem::swap(&mut ev, &mut self.events);
        assert(events_view(self.events@) =~= seq![]);
        ev
    }

    /// The seat of the first player with this id.
    fn player_idx(&self, id: PlayerId) -> (r: Result<usize, GameError>)
        ensures
            r matches Ok(i) ==> is_first_with_id(self.players@, id, i as int),
            r matches Err(e) ==> e == GameError::PlayerNotFound(id) && !has_player(
                self.players@,
                id,
            ),
    {
        let mut i: usize = 0;
        while i < self.players.len()
            invariant
                i <= self.players@.len(),
                forall|j: int| 0 <= j < i ==> self.players@[j].id != id,
            decreases self.players@.len() - i,
        {
            if self.players[i].id == id {
                return Ok(i);
            }
            i = i + 1;
        }
        Err(GameError::PlayerNotFound(id))
    }

    /// The order of play for a round: the alive players starting left of the dealer,
    /// ending with the dealer.
    pub fn compute_alive_order(&self) -> (order: Vec<usize>)
        requires
            self.dealer_idx < self.players@.len(),
        ensures
            order@ == round_order(self.players@, self.dealer_idx as int),
    {
        let n = self.players.len();
        let d = self.dealer_idx;
        let mut order: Vec<usize> = Vec::new();
        let mut i: usize = 0;
        while i < n
            invariant
                n == self.players@.len(),
                d == self.dealer_idx,
                d < n,
                i <= n,
                order@ == alive_seats(self.players@, d as int, i as nat),
            decreases n - i,
        {
            let k = i + 1;
            let idx = if k < n - d {
                d + k
            } else {
                k - (n - d)
            };
            proof {
                lemma_wrap(d + k, n as int);
                assert(idx as int == (d + k) % (n as int));
            }
            if self.players[idx].is_alive() {
                order.push(idx);
            }
            i = k;
        }
        order
    }

    /// Appends one event to the log.
    fn emit(&mut self, e: GameEvent)
        ensures
            final(self)@ == old(self)@.with_event(e@),
    {
        self.events.push(e);
        assert(events_view(self.events@) =~= events_view(old(self).events@).push(e@));
    }

    /// Gives the turn to position `alive_order_idx` of the order of play, or to the dealer
    /// once that position reaches the dealer's.
    fn start_normal_turn(&mut self, alive_order_idx: usize)
        requires
            old(self)@.alive_order.len() > 0,
            old(self)@.order_in_range(),
        ensures
            final(self)@ == old(self)@.turn_from(alive_order_idx as int),
    {
        let dealer_alive_idx = self.alive_order.len() - 1;
        if alive_order_idx >= dealer_alive_idx {
            let dealer_player_idx = self.alive_order[dealer_alive_idx];
            self.phase = Phase::DealerTurn;
            let id = self.players[dealer_player_idx].id;
            self.emit(GameEvent::DealerTurnStarted { dealer_id: id });
        } else {
            let player_idx = self.alive_order[alive_order_idx];
            self.phase = Phase::NormalTurn { current_idx: alive_order_idx };
            let id = self.players[player_idx].id;
            self.emit(GameEvent::NormalTurnStarted { player_id: id });
        }
    }

    /// Exchanges the hands of two seats.
    fn execute_trade(&mut self, from_idx: usize, to_idx: usize)
        requires
            from_idx < old(self)@.players.len(),
            to_idx < old(self)@.players.len(),
        ensures
            final(self)@ == (GameModel {
                players: swap_hands(old(self)@.players, from_idx as int, to_idx as int),
                ..old(self)@.with_event(
                    EventModel::TradeCompleted {
                        from_id: old(self)@.players[from_idx as int].id,
                        to_id: old(self)@.players[to_idx as int].id,
                    },
                )
            }),
    {
        let from_card = self.players[from_idx].hand;
        let to_card = self.players[to_idx].hand;
        self.players[from_idx].hand = to_card;
        self.players[to_idx].hand = from_card;
        let from_id = self.players[from_idx].id;
        let to_id = self.players[to_idx].id;
        self.emit(GameEvent::TradeCompleted { from_id, to_id });
    }

    fn handle_pass(&mut self, player_id: PlayerId) -> (r: Result<(), GameError>)
        requires
            old(self)@.phase matches PhaseModel::NormalTurn { current_idx } ==> current_idx
                < old(self)@.alive_order.len() && old(self)@.order_in_range(),
        ensures
            final(self)@ == old(self)@.pass_step(player_id).0,
            r == old(self)@.pass_step(player_id).1,
    {
        let current_idx = match &self.phase {
            Phase::NormalTurn { current_idx } => *current_idx,
            _ => return Err(GameError::InvalidAction),
        };
        let _n = self.alive_order.len();
        let player_idx = self.alive_order[current_idx];
        if self.players[player_idx].id != player_id {
            return Err(GameError::NotYourTurn(player_id));
        }
        self.emit(GameEvent::PlayerPassed { player_id });
        self.start_normal_turn(current_idx + 1);
        Ok(())
    }

    fn handle_trade(&mut self, player_id: PlayerId) -> (r: Result<(), GameError>)
        requires
            old(self)@.phase matches PhaseModel::NormalTurn { current_idx } ==> current_idx + 1
                < old(self)@.alive_order.len() && old(self)@.order_in_range(),
        ensures
            final(self)@ == old(self)@.trade_step(player_id).0,
            r == old(self)@.trade_step(player_id).1,
    {
        let current_idx = match &self.phase {
            Phase::NormalTurn { current_idx } => *current_idx,
            _ => return Err(GameError::InvalidAction),
        };
        let _n = self.alive_order.len();
        let player_idx = self.alive_order[current_idx];
        if self.players[player_idx].id != player_id {
            return Err(GameError::NotYourTurn(player_id));
        }
        let target_idx = current_idx + 1;
        let target_player_idx = self.alive_order[target_idx];
        let to_id = self.players[target_player_idx].id;
        self.emit(GameEvent::TradeProposed { from_id: player_id, to_id });
        if self.players[target_player_idx].can_block() {
            self.phase = Phase::WaitingForBlock { trader_idx: current_idx, target_idx };
        } else {
            self.execute_trade(player_idx, target_player_idx);
            self.start_normal_turn(current_idx + 1);
        }
        Ok(())
    }

    fn handle_block(&mut self, player_id: PlayerId) -> (r: Result<(), GameError>)
        requires
            old(self)@.phase matches PhaseModel::WaitingForBlock { trader_idx, target_idx }
                ==> target_idx < old(self)@.alive_order.len() && trader_idx < usize::MAX
                && old(self)@.order_in_range(),
        ensures
            final(self)@ == old(self)@.block_step(player_id).0,
            r == old(self)@.block_step(player_id).1,
    {
        let (trader_idx, target_idx) = match &self.phase {
            Phase::WaitingForBlock { trader_idx, target_idx } => (*trader_idx, *target_idx),
            _ => return Err(GameError::InvalidAction),
        };
        let target_player_idx = self.alive_order[target_idx];
        if self.players[target_player_idx].id != player_id {
            return Err(GameError::NotYourTurn(player_id));
        }
        if !self.players[target_player_idx].can_block() {
            return Err(GameError::NoBlockerToken(player_id));
        }
        self.players[target_player_idx].use_blocker();
        self.emit(GameEvent::TradeBlocked { blocker_id: player_id });
        self.start_normal_turn(trader_idx + 1);
        Ok(())
    }

    fn handle_accept_trade(&mut self, player_id: PlayerId) -> (r: Result<(), GameError>)
        requires
            old(self)@.phase matches PhaseModel::WaitingForBlock { trader_idx, target_idx }
                ==> target_idx < old(self)@.alive_order.len() && trader_idx
                < old(self)@.alive_order.len() && old(self)@.order_in_range(),
        ensures
            final(self)@ == old(self)@.accept_step(player_id).0,
            r == old(self)@.accept_step(player_id).1,
    {
        let (trader_idx, target_idx) = match &self.phase {
            Phase::WaitingForBlock { trader_idx, target_idx } => (*trader_idx, *target_idx),
            _ => return Err(GameError::InvalidAction),
        };
        let target_player_idx = self.alive_order[target_idx];
        if self.players[target_player_idx].id != player_id {
            return Err(GameError::NotYourTurn(player_id));
        }
        let _n = self.alive_order.len();
        let trader_player_idx = self.alive_order[trader_idx];
        self.execute_trade(trader_player_idx, target_player_idx);
        self.start_normal_turn(trader_idx + 1);
        Ok(())
    }

    /// The active seats: the order of play without the exempted seats.
    fn active_indices(&self) -> (active: Vec<usize>)
        ensures
            active@ == active_seats(self.alive_order@, self.exempted@),
    {
        let mut active: Vec<usize> = Vec::new();
        let mut k: usize = 0;
        while k < self.alive_order.len()
            invariant
                k <= self.alive_order@.len(),
                active@ == active_seats(self.alive_order@.take(k as int), self.exempted@),
            decreases self.alive_order@.len() - k,
        {
            let idx = self.alive_order[k];
            if !seat_listed(&self.exempted, idx) {
                active.push(idx);
            }
            proof {
                assert(self.alive_order@.take(k + 1).drop_last() =~= self.alive_order@.take(
                    k as int,
                ));
            }
            k = k + 1;
        }
        proof {
            assert(self.alive_order@.take(k as int) =~= self.alive_order@);
        }
        active
    }

    /// The cards shown by the given seats.
    fn reveal_cards(&self, active: &Vec<usize>) -> (rs: Vec<(PlayerId, Card)>)
        requires
            forall|k: int| 0 <= k < active@.len() ==> (#[trigger] active@[k]) < self.players@.len(),
        ensures
            rs@ == shown_cards(self.players@, active@),
    {
        let mut rs: Vec<(PlayerId, Card)> = Vec::new();
        let mut k: usize = 0;
        while k < active.len()
            invariant
                k <= active@.len(),
                forall|k: int| 0 <= k < active@.len() ==> (#[trigger] active@[k]) < self.players@.len(),
                rs@ == shown_cards(self.players@, active@.take(k as int)),
            decreases active@.len() - k,
        {
            let idx = active[k];
            if let Some(card) = self.players[idx].hand {
                rs.push((self.players[idx].id, card));
            }
            proof {
                assert(active@.take(k + 1).drop_last() =~= active@.take(k as int));
            }
            k = k + 1;
        }
        proof {
            assert(active@.take(k as int) =~= active@);
        }
        rs
    }

    /// Applies the losses of a showdown in turn: the first seat of each loser's id loses a
    /// life, and a player left without one is announced.
    fn apply_losses(&mut self, losers: &Vec<PlayerId>)
        requires
            forall|k: int| 0 <= k < losers@.len() ==> has_player(old(self)@.players, #[trigger] losers@[k]),
        ensures
            final(self)@ == (GameModel {
                players: losses_taken(old(self)@.players, losers@).0,
                events: old(self)@.events + losses_taken(old(self)@.players, losers@).1,
                ..old(self)@
            }),
    {
        let ghost g0 = self@;
        let mut k: usize = 0;
        while k < losers.len()
            invariant
                k <= losers@.len(),
                forall|k: int| 0 <= k < losers@.len() ==> has_player(g0.players, #[trigger] losers@[k]),
                self@ == (GameModel {
                    players: losses_taken(g0.players, losers@.take(k as int)).0,
                    events: g0.events + losses_taken(g0.players, losers@.take(k as int)).1,
                    ..g0
                }),
            decreases losers@.len() - k,
        {
            let loser_id = losers[k];
            let ghost t = losers@.take(k as int);
            proof {
                assert forall|m: int| 0 <= m < t.len() implies has_player(g0.players, #[trigger] t[m]) by {
                    assert(t[m] == losers@[m]);
                }
                lemma_losses_frame(g0.players, t);
                assert(has_player(g0.players, losers@[k as int]));
                let w = choose|i: int| 0 <= i < g0.players.len() && g0.players[i].id == loser_id;
                assert(self.players@[w].id == loser_id);
                lemma_first_seat_exists(g0.players, loser_id, w);
            }
            let idx = self.player_idx(loser_id).unwrap();
            proof {
                let c = index_of(g0.players, loser_id);
                assert(is_first_with_id(g0.players, loser_id, c));
                assert(self.players@[idx as int].id == g0.players[idx as int].id);
                assert forall|j: int| 0 <= j < idx implies g0.players[j].id != loser_id by {
                    assert(self.players@[j].id == g0.players[j].id);
                }
                assert(idx == c) by {
                    if c < idx {
                        assert(self.players@[c].id == g0.players[c].id);
                    }
                }
            }
            self.players[idx].lose_life();
            if !self.players[idx].is_alive() {
                self.emit(GameEvent::PlayerEliminated { player_id: loser_id });
            }
            proof {
                let t2 = losers@.take(k + 1);
                assert(t2.drop_last() =~= t);
                assert(t2.last() == loser_id);
                assert(self.players@ =~= losses_taken(g0.players, t2).0);
                assert(events_view(self.events@) =~= g0.events + losses_taken(g0.players, t2).1);
            }
            k = k + 1;
        }
        proof {
            assert(losers@.take(k as int) =~= losers@);
        }
    }


    /// The showdown: the active players reveal their cards and the lowest lose a life.
    fn begin_showdown(&mut self)
        requires
            old(self)@.can_show_down(),
        ensures
            final(self)@ == old(self)@.showdown(),
    {
        let ghost g0 = self@;
        self.phase = Phase::Showdown;
        let active = self.active_indices();
        proof {
            lemma_active_seats(g0.alive_order, g0.exempted);
            assert forall|k: int| 0 <= k < active@.len() implies (#[trigger] active@[k])
                < self.players@.len() by {
                let j = choose|j: int| 0 <= j < g0.alive_order.len() && g0.alive_order[j] == active@[k];
                assert(g0.alive_order[j] < g0.players.len());
            }
        }
        if active.len() == 0 {
            self.emit(GameEvent::EveryoneExempted);
            self.phase = Phase::RoundEnd;
            return;
        }
        let reveals = self.reveal_cards(&active);
        proof {
            lemma_reveals(g0.players, active@);
        }
        let cowboy = self.is_cowboy_round;
        let mut min_value: u8 = showdown_value(reveals[0].1, cowboy);
        let mut k: usize = 1;
        proof {
            assert(reveals@.take(1)[0] == reveals@[0]);
        }
        while k < reveals.len()
            invariant
                1 <= k <= reveals@.len(),
                cowboy == g0.is_cowboy_round,
                reveals@ == shown_cards(g0.players, active_seats(g0.alive_order, g0.exempted)),
                g0.can_show_down(),
                min_value as int == lowest_value(reveals@.take(k as int), cowboy),
            decreases reveals@.len() - k,
        {
            let v = showdown_value(reveals[k].1, cowboy);
            if v < min_value {
                min_value = v;
            }
            proof {
                assert(reveals@.take(k + 1).drop_last() =~= reveals@.take(k as int));
                assert(reveals@.take(k + 1).last() == reveals@[k as int]);
            }
            k = k + 1;
        }
        proof {
            assert(reveals@.take(k as int) =~= reveals@);
        }
        let mut losers: Vec<PlayerId> = Vec::new();
        let mut shown_losers: Vec<PlayerId> = Vec::new();
        k = 0;
        while k < reveals.len()
            invariant
                k <= reveals@.len(),
                cowboy == g0.is_cowboy_round,
                reveals@ == shown_cards(g0.players, active_seats(g0.alive_order, g0.exempted)),
                g0.can_show_down(),
                losers@ == loser_ids(reveals@.take(k as int), cowboy, min_value as int),
                shown_losers@ == losers@,
            decreases reveals@.len() - k,
        {
            let v = showdown_value(reveals[k].1, cowboy);
            if v == min_value {
                losers.push(reveals[k].0);
                shown_losers.push(reveals[k].0);
            }
            proof {
                assert(reveals@.take(k + 1).drop_last() =~= reveals@.take(k as int));
                assert(reveals@.take(k + 1).last() == reveals@[k as int]);
            }
            k = k + 1;
        }
        proof {
            assert(reveals@.take(k as int) =~= reveals@);
            lemma_loser_ids(reveals@, cowboy, min_value as int);
            assert forall|k: int| 0 <= k < losers@.len() implies has_player(
                self.players@,
                #[trigger] losers@[k],
            ) by {
                let j = choose|j: int|
                    0 <= j < reveals@.len() && reveals@[j].0 == losers@[k] && card_value(
                        reveals@[j].1,
                        cowboy,
                    ) == min_value as int;
                assert(reveals@[j] == reveals@[j]);
                let m = choose|m: int|
                    0 <= m < active@.len() && g0.players[active@[m] as int].id == reveals@[j].0
                        && g0.players[active@[m] as int].hand == Some(reveals@[j].1);
                assert(active@[m] < g0.players.len());
            }
        }
        self.emit(
            GameEvent::ShowdownResult { reveals, losers: shown_losers, is_cowboy_round: cowboy },
        );
        self.apply_losses(&losers);
        self.phase = Phase::RoundEnd;
    }


    fn handle_dealer_pass(&mut self, player_id: PlayerId) -> (r: Result<(), GameError>)
        requires
            old(self)@.phase is DealerTurn ==> old(self)@.alive_order.len() > 0
                && old(self)@.order_in_range() && (old(self)@.seat_id(
                old(self)@.alive_order.len() - 1,
            ) == player_id ==> old(self)@.can_show_down()),
        ensures
            final(self)@ == old(self)@.dealer_pass_step(player_id).0,
            r == old(self)@.dealer_pass_step(player_id).1,
    {
        if let Phase::DealerTurn = self.phase {
        } else {
            return Err(GameError::InvalidAction);
        }
        let dealer_player_idx = self.alive_order[self.alive_order.len() - 1];
        if self.players[dealer_player_idx].id != player_id {
            return Err(GameError::NotYourTurn(player_id));
        }
        self.emit(GameEvent::DealerPassed { dealer_id: player_id });
        self.begin_showdown();
        Ok(())
    }

    fn handle_take_off_top(&mut self, player_id: PlayerId) -> (r: Result<(), GameError>)
        requires
            old(self)@.phase is DealerTurn ==> old(self)@.alive_order.len() > 0
                && old(self)@.order_in_range() && (old(self)@.seat_id(
                old(self)@.alive_order.len() - 1,
            ) == player_id ==> old(self)@.deck.len() > 0 && (!old(self)@.deck.last().is_king()
                ==> old(self)@.after_draw(player_id).can_show_down())),
        ensures
            final(self)@ == old(self)@.take_off_top_step(player_id).0,
            r == old(self)@.take_off_top_step(player_id).1,
    {
        if let Phase::DealerTurn = self.phase {
        } else {
            return Err(GameError::InvalidAction);
        }
        let dealer_player_idx = self.alive_order[self.alive_order.len() - 1];
        if self.players[dealer_player_idx].id != player_id {
            return Err(GameError::NotYourTurn(player_id));
        }
        let ghost g0 = self@;
        self.players[dealer_player_idx].hand = None;
        let drawn = self.deck.deal_one().expect("Deck should have cards remaining");
        self.players[dealer_player_idx].hand = Some(drawn);
        self.emit(GameEvent::DealerDrewCard { dealer_id: player_id, card: drawn });
        proof {
            assert(g0.alive_order.last() == g0.alive_order[g0.alive_order.len() - 1]);
            assert(self@.players =~= g0.after_draw(player_id).players);
            assert(self@ =~= g0.after_draw(player_id));
        }
        if drawn.is_king() {
            self.is_cowboy_round = true;
            let mut king_holders: Vec<PlayerId> = Vec::new();
            king_holders.push(player_id);
            proof {
                assert(king_holders@ =~= seq![player_id]);
            }
            self.emit(
                GameEvent::CowboyTriggered { king_holders, source: CowboySource::DealerDraw },
            );
            self.start_cowboy_vote();
        } else {
            self.begin_showdown();
        }
        Ok(())
    }

    /// Opens a cowboy vote with no votes staged.
    fn start_cowboy_vote(&mut self)
        ensures
            final(self)@ == old(self)@.cowboy_vote_opened(),
    {
        self.emit(GameEvent::CowboyVoteStarted);
        self.phase = Phase::CowboyVote { votes: Vec::new() };
        assert(self@.phase == PhaseModel::CowboyVote { votes: seq![] });
    }

    fn handle_cowboy_vote(&mut self, player_id: PlayerId, exempt: bool) -> (r: Result<
        (),
        GameError,
    >)
        ensures
            final(self)@ == old(self)@.vote_step(player_id, exempt).0,
            r == old(self)@.vote_step(player_id, exempt).1,
    {
        if let Phase::CowboyVote { .. } = self.phase {
        } else {
            return Err(GameError::InvalidAction);
        }
        let player_idx = match self.player_idx(player_id) {
            Ok(i) => i,
            Err(e) => return Err(e),
        };
        proof {
            let c = index_of(self.players@, player_id);
            assert(is_first_with_id(self.players@, player_id, c));
            assert(c == player_idx) by {
                if c < player_idx {
                    assert(self.players@[c].id != player_id);
                } else if player_idx < c {
                    assert(self.players@[player_idx as int].id != player_id);
                }
            }
        }
        if !self.players[player_idx].is_alive() {
            return Err(GameError::PlayerEliminated(player_id));
        }
        if let Phase::CowboyVote { votes } = &self.phase {
            if vote_listed(votes, player_id) {
                return Err(GameError::InvalidAction);
            }
        }
        if exempt && !self.players[player_idx].can_exempt() {
            return Err(GameError::NoExemptionToken(player_id));
        }
        if let Phase::CowboyVote { votes } = &mut self.phase {
            votes.push((player_id, exempt));
        }
        Ok(())
    }


    /// The final votes: the staged votes, then for every player of the order of play who
    /// has not voted, exempt exactly when holding a token.
    fn collect_final_votes(&self, staged: Vec<(PlayerId, bool)>) -> (fv: Vec<(PlayerId, bool)>)
        requires
            self@.order_in_range(),
        ensures
            fv@ == final_votes(self.players@, self.alive_order@, staged@),
    {
        let mut fv = staged;
        let ghost staged_view = fv@;
        let mut k: usize = 0;
        while k < self.alive_order.len()
            invariant
                k <= self.alive_order@.len(),
                self@.order_in_range(),
                fv@ == final_votes(self.players@, self.alive_order@.take(k as int), staged_view),
            decreases self.alive_order@.len() - k,
        {
            let player_idx = self.alive_order[k];
            assert(self@.alive_order[k as int] < self@.players.len());
            let pid = self.players[player_idx].id;
            proof {
                assert(self.alive_order@.take(k + 1).drop_last() =~= self.alive_order@.take(
                    k as int,
                ));
                assert(self.alive_order@.take(k + 1).last() == self.alive_order@[k as int]);
            }
            if !vote_listed(&fv, pid) {
                let default_exempt = self.players[player_idx].can_exempt();
                fv.push((pid, default_exempt));
            }
            k = k + 1;
        }
        proof {
            assert(self.alive_order@.take(k as int) =~= self.alive_order@);
        }
        fv
    }

    /// Applies the final votes: exempting players spend a token and sit out the showdown.
    fn apply_votes(&mut self, fv: &Vec<(PlayerId, bool)>)
        requires
            forall|k: int| 0 <= k < fv@.len() ==> has_player(old(self)@.players, (#[trigger] fv@[k]).0),
            forall|a: int, b: int| 0 <= a < b < fv@.len() ==> fv@[a].0 != fv@[b].0,
            forall|k: int|
                0 <= k < fv@.len() && (#[trigger] fv@[k]).1 ==> old(self)@.players[index_of(
                    old(self)@.players,
                    fv@[k].0,
                )].exemption_tokens > 0,
        ensures
            final(self)@ == (GameModel {
                players: votes_taken(old(self)@.players, fv@),
                exempted: old(self)@.exempted + exempt_seats(old(self)@.players, fv@),
                events: old(self)@.events + vote_events(fv@),
                ..old(self)@
            }),
    {
        let ghost g0 = self@;
        let mut k: usize = 0;
        while k < fv.len()
            invariant
                k <= fv@.len(),
                forall|k: int| 0 <= k < fv@.len() ==> has_player(g0.players, (#[trigger] fv@[k]).0),
                forall|a: int, b: int| 0 <= a < b < fv@.len() ==> fv@[a].0 != fv@[b].0,
                forall|k: int|
                    0 <= k < fv@.len() && (#[trigger] fv@[k]).1 ==> g0.players[index_of(
                        g0.players,
                        fv@[k].0,
                    )].exemption_tokens > 0,
                self@ == (GameModel {
                    players: votes_taken(g0.players, fv@.take(k as int)),
                    exempted: g0.exempted + exempt_seats(g0.players, fv@.take(k as int)),
                    events: g0.events + vote_events(fv@.take(k as int)),
                    ..g0
                }),
            decreases fv@.len() - k,
        {
            let (pid, exempt) = fv[k];
            let ghost t = fv@.take(k as int);
            let ghost t2 = fv@.take(k + 1);
            proof {
                assert forall|m: int| 0 <= m < t.len() implies has_player(g0.players, (#[trigger] t[m]).0) by {
                    assert(t[m] == fv@[m]);
                }
                assert forall|a: int, b: int| 0 <= a < b < t.len() implies t[a].0 != t[b].0 by {
                    assert(t[a] == fv@[a] && t[b] == fv@[b]);
                }
                assert forall|m: int| 0 <= m < t.len() && (#[trigger] t[m]).1 implies g0.players[index_of(
                    g0.players,
                    t[m].0,
                )].exemption_tokens > 0 by {
                    assert(t[m] == fv@[m]);
                }
                lemma_votes_frame(g0.players, t);
                assert(has_player(g0.players, fv@[k as int].0));
                let w = choose|i: int| 0 <= i < g0.players.len() && g0.players[i].id == pid;
                lemma_first_seat_exists(g0.players, pid, w);
                assert(self.players@[w].id == pid);
                assert(t2 =~= t.push((pid, exempt)));
                assert(t2.drop_last() =~= t);
            }
            let player_idx = self.player_idx(pid).unwrap();
            proof {
                let c = index_of(g0.players, pid);
                assert(is_first_with_id(g0.players, pid, c));
                assert(self.players@[player_idx as int].id == g0.players[player_idx as int].id);
                assert forall|j: int| 0 <= j < player_idx implies g0.players[j].id != pid by {
                    assert(self.players@[j].id == g0.players[j].id);
                }
                assert(player_idx == c) by {
                    if c < player_idx {
                        assert(self.players@[c].id == g0.players[c].id);
                    }
                }
                assert forall|m: int| 0 <= m < t.len() && t[m].1 implies t[m].0
                    != g0.players[c].id by {
                    assert(t[m] == fv@[m]);
                }
            }
            if exempt {
                proof {
                    assert(fv@[k as int].1);
                }
                self.players[player_idx].use_exemption();
                self.exempted.push(player_idx);
                self.emit(GameEvent::PlayerExempted { player_id: pid });
                proof {
                    assert(t2[t.len() as int] == (pid, true));
                    assert(self.players@ =~= votes_taken(g0.players, t2));
                    assert(self.exempted@ =~= g0.exempted + exempt_seats(g0.players, t2));
                }
            } else {
                self.emit(GameEvent::PlayerStayedIn { player_id: pid });
                proof {
                    assert(self.players@ =~= votes_taken(g0.players, t2));
                    assert(self.exempted@ =~= g0.exempted + exempt_seats(g0.players, t2));
                }
            }
            proof {
                assert(vote_events(t2) =~= vote_events(t).push(vote_events(t2).last()));
                assert(self@.events =~= g0.events + vote_events(t2));
            }
            k = k + 1;
        }
        proof {
            assert(fv@.take(k as int) =~= fv@);
        }
    }

    /// Resolves the cowboy vote: defaults for missing voters, tokens spent, every vote
    /// announced at once, then the showdown.
    fn handle_resolve_cowboy_vote(&mut self) -> (r: Result<(), GameError>)
        requires
            old(self)@.phase matches PhaseModel::CowboyVote { votes } ==> old(self)@.can_resolve(
                votes,
            ),
        ensures
            final(self)@ == old(self)@.resolve_step().0,
            r == old(self)@.resolve_step().1,
    {
        let staged = match &self.phase {
            Phase::CowboyVote { votes } => copy_votes(votes),
            _ => return Err(GameError::InvalidAction),
        };
        let ghost g0 = self@;
        let fv = self.collect_final_votes(staged);
        proof {
            lemma_final_votes(g0.players, g0.alive_order, staged@);
        }
        self.apply_votes(&fv);
        proof {
            assert(self@ =~= g0.votes_applied(staged@));
        }
        self.begin_showdown();
        Ok(())
    }


    /// After the deal: kings in hand make a cowboy round, otherwise the player left of the
    /// dealer starts.
    fn check_for_kings(&mut self)
        requires
            old(self)@.alive_order.len() > 0,
            old(self)@.order_in_range(),
        ensures
            final(self)@ == old(self)@.after_king_check(),
    {
        let ghost g0 = self@;
        let mut king_holders: Vec<usize> = Vec::new();
        let mut k: usize = 0;
        while k < self.alive_order.len()
            invariant
                k <= self.alive_order@.len(),
                self@ == g0,
                g0.order_in_range(),
                king_holders@ == king_seats(self.players@, self.alive_order@.take(k as int)),
            decreases self.alive_order@.len() - k,
        {
            let idx = self.alive_order[k];
            assert(self@.alive_order[k as int] < self@.players.len());
            let holds_king = match self.players[idx].hand {
                Some(c) => c.is_king(),
                None => false,
            };
            if holds_king {
                king_holders.push(idx);
            }
            proof {
                assert(self.alive_order@.take(k + 1).drop_last() =~= self.alive_order@.take(
                    k as int,
                ));
                assert(self.alive_order@.take(k + 1).last() == self.alive_order@[k as int]);
            }
            k = k + 1;
        }
        proof {
            assert(self.alive_order@.take(k as int) =~= self.alive_order@);
            lemma_king_seats(self.players@, self.alive_order@);
        }
        if king_holders.len() > 0 {
            self.is_cowboy_round = true;
            let mut king_ids: Vec<PlayerId> = Vec::new();
            let mut k: usize = 0;
            while k < king_holders.len()
                invariant
                    k <= king_holders@.len(),
                    forall|m: int| 0 <= m < king_holders@.len() ==> (#[trigger] king_holders@[m]) < self.players@.len(),
                    king_ids@ == seat_ids(self.players@, king_holders@.take(k as int)),
                decreases king_holders@.len() - k,
            {
                king_ids.push(self.players[king_holders[k]].id);
                proof {
                    assert(king_ids@ =~= seat_ids(self.players@, king_holders@.take(k + 1)));
                }
                k = k + 1;
            }
            proof {
                assert(king_holders@.take(k as int) =~= king_holders@);
            }
            self.emit(GameEvent::CowboyTriggered { king_holders: king_ids, source: CowboySource::Deal });
            self.start_cowboy_vote();
        } else {
            self.start_normal_turn(0);
        }
    }

    /// Starts a round: a fresh shuffled deck, one card to each alive player in the order of
    /// play, then the check for kings.
    fn start_round(&mut self)
        requires
            old(self)@.can_start_round(),
        ensures
            old(self)@.round_started(final(self)@),
    {
        let ghost g0 = self@;
        let ghost order = round_order(g0.players, g0.dealer_idx as int);
        let _n = self.players.len();
        proof {
            lemma_alive_seats(g0.players, g0.dealer_idx as int, g0.players.len());
        }
        self.round_number = self.round_number + 1;
        self.is_cowboy_round = false;
        self.exempted.clear();
        self.alive_order = self.compute_alive_order();
        self.deck = Deck::new();
        self.deck.shuffle();
        let ghost shuffled = self.deck@;
        let dealer_id = self.players[self.dealer_idx].id;
        self.emit(GameEvent::RoundStarted { round_number: self.round_number, dealer_id });
        let ghost ev0 = self@.events;
        let mut k: usize = 0;
        while k < self.alive_order.len()
            invariant
                k <= self.alive_order@.len(),
                self.alive_order@ == order,
                order.len() <= 52,
                order.no_duplicates(),
                forall|m: int| 0 <= m < order.len() ==> (#[trigger] order[m]) < g0.players.len(),
                shuffled.len() == 52,
                shuffled.to_multiset() == fresh_deck().to_multiset(),
                self.deck@.len() + k == 52,
                self.deck@ + held_cards(self.players@, order.take(k as int)).reverse() == shuffled,
                self.players@.len() == g0.players.len(),
                g0.players.len() <= usize::MAX,
                forall|i: int|
                    0 <= i < g0.players.len() && !order.take(k as int).contains(i as usize)
                        ==> self.players@[i] == g0.players[i],
                forall|i: int|
                    0 <= i < g0.players.len() && order.take(k as int).contains(i as usize)
                        ==> (#[trigger] self.players@[i]).hand is Some && self.players@[i] == (Player {
                        hand: self.players@[i].hand,
                        ..g0.players[i]
                    }),
                self@ == (GameModel {
                    players: self@.players,
                    deck: self@.deck,
                    events: ev0 + dealt_events(g0.players, order.take(k as int)),
                    ..self@
                }),
                self@.events == ev0 + dealt_events(g0.players, order.take(k as int)),
                self.round_number == g0.round_number + 1,
                self.dealer_idx == g0.dealer_idx,
                self.is_cowboy_round == false,
                self.exempted@ == Seq::<usize>::empty(),
                self.original_player_count == g0.original_player_count,
                ev0 == g0.events.push(
                    EventModel::RoundStarted {
                        round_number: (g0.round_number + 1) as u32,
                        dealer_id: g0.players[g0.dealer_idx as int].id,
                    },
                ),
            decreases self.alive_order@.len() - k,
        {
            let player_idx = self.alive_order[k];
            let ghost before = self.players@;
            let ghost deck_before = self.deck@;
            let ghost t = order.take(k as int);
            let card = self.deck.deal_one().expect("Deck should have enough cards");
            self.players[player_idx].hand = Some(card);
            let pid = self.players[player_idx].id;
            self.emit(GameEvent::CardDealt { player_id: pid });
            proof {
                let t2 = order.take(k + 1);
                assert(t2 =~= t.push(player_idx));
                assert(t2[t.len() as int] == player_idx);
                assert(!t.contains(player_idx)) by {
                    if t.contains(player_idx) {
                        let m = choose|m: int| 0 <= m < t.len() && t[m] == player_idx;
                        assert(order[m] == order[k as int]);
                    }
                }
                assert forall|m: int| 0 <= m < t.len() implies (#[trigger] t[m]) != player_idx by {
                }
                assert(held_cards(self.players@, t) =~= held_cards(before, t));
                assert(held_cards(self.players@, t2) =~= held_cards(before, t).push(card));
                assert(self.deck@ + held_cards(self.players@, t2).reverse() =~= deck_before
                    + held_cards(before, t).reverse());
                assert forall|i: int|
                    0 <= i < g0.players.len() && !t2.contains(i as usize) implies self.players@[i]
                    == g0.players[i] by {
                    assert(i != player_idx);
                    assert(!t.contains(i as usize)) by {
                        if t.contains(i as usize) {
                            let m = choose|m: int| 0 <= m < t.len() && t[m] == i as usize;
                            assert(t2[m] == i as usize);
                        }
                    }
                }
                assert forall|i: int|
                    0 <= i < g0.players.len() && t2.contains(i as usize) implies (#[trigger] self.players@[i]).hand is Some
                    && self.players@[i] == (Player { hand: self.players@[i].hand, ..g0.players[i] }) by {
                    if i != player_idx {
                        let m = choose|m: int| 0 <= m < t2.len() && t2[m] == i as usize;
                        assert(g0.players.len() <= usize::MAX);
                        if m == t.len() {
                            assert(t2[m] == player_idx);
                            assert(i == player_idx as int);
                        }
                        assert(m < t.len());
                        assert(t[m] == i as usize);
                    } else {
                        assert(!t.contains(i as usize));
                    }
                }
                assert(dealt_events(g0.players, t2) =~= dealt_events(g0.players, t).push(
                    EventModel::CardDealt { player_id: pid },
                ));
                assert(self@.events =~= ev0 + dealt_events(g0.players, t2));
            }
            k = k + 1;
        }
        proof {
            assert(order.take(k as int) =~= order);
        }
        self.phase = Phase::KingCheck;
        proof {
            assert(self@ =~= g0.dealt(self@.players, self@.deck));
        }
        self.check_for_kings();
    }


    /// Starts the game: everybody gets the chosen lives and tokens (no exemption tokens
    /// with a single life), a random dealer is chosen and the first round starts.
    fn start_game(&mut self, lives: u8, blocker_tokens: u8, exemption_tokens: u8) -> (r: Result<
        (),
        GameError,
    >)
        requires
            old(self)@.phase is Lobby && old(self)@.players.len() >= 2 ==> lives > 0
                && old(self)@.players.len() <= 52 && old(self)@.round_number < u32::MAX,
        ensures
            old(self)@.start_step(final(self)@, lives, blocker_tokens, exemption_tokens, r),
    {
        if let Phase::Lobby = self.phase {
        } else {
            return Err(GameError::NotInLobby);
        }
        if self.players.len() < 2 {
            return Err(GameError::NotEnoughPlayers);
        }
        let ghost g0 = self@;
        let actual_exemptions = if lives == 1 {
            0
        } else {
            exemption_tokens
        };
        let mut i: usize = 0;
        while i < self.players.len()
            invariant
                i <= self.players@.len(),
                self.players@.len() == g0.players.len(),
                actual_exemptions == (if lives == 1 { 0u8 } else { exemption_tokens }),
                forall|j: int| 0 <= j < i ==> self.players@[j] == equipped(g0.players, lives, blocker_tokens, exemption_tokens)[j],
                forall|j: int| i <= j < g0.players.len() ==> self.players@[j] == g0.players[j],
                self@ == (GameModel { players: self@.players, ..g0 }),
            decreases self.players@.len() - i,
        {
            self.players[i].lives = lives;
            self.players[i].blocker_tokens = blocker_tokens;
            self.players[i].exemption_tokens = actual_exemptions;
            self.players[i].is_eliminated = false;
            i = i + 1;
        }
        proof {
            assert(self.players@ =~= equipped(g0.players, lives, blocker_tokens, exemption_tokens));
        }
        self.original_player_count = self.players.len();
        self.dealer_idx = random_below(self.players.len());
        let dealer_id = self.players[self.dealer_idx].id;
        self.emit(GameEvent::GameStarted { dealer_id });
        proof {
            lemma_alive_seats(self@.players, self.dealer_idx as int, self@.players.len());
            assert forall|i: int| 0 <= i < self@.players.len() implies (#[trigger] self@.players[i]).alive() by {
                assert(self@.players[i] == equipped(g0.players, lives, blocker_tokens, exemption_tokens)[i]);
            }
        }
        self.start_round();
        Ok(())
    }

    /// Passes the dealer chip to the next alive player clockwise.
    fn advance_dealer(&mut self)
        requires
            old(self)@.players.len() > 0,
            old(self)@.dealer_idx < old(self)@.players.len(),
            exists|i: int| 0 <= i < old(self)@.players.len() && (#[trigger] old(self)@.players[i]).alive(),
        ensures
            final(self)@ == (GameModel {
                dealer_idx: next_alive_seat(old(self)@.players, old(self)@.dealer_idx as int) as usize,
                ..old(self)@
            }),
            next_alive_seat(old(self)@.players, old(self)@.dealer_idx as int) < old(self)@.players.len(),
            old(self)@.players[next_alive_seat(old(self)@.players, old(self)@.dealer_idx as int)].alive(),
    {
        let ghost g0 = self@;
        let n = self.players.len();
        let d = self.dealer_idx;
        let mut next = if d + 1 < n {
            d + 1
        } else {
            0
        };
        let mut j: usize = 1;
        proof {
            lemma_wrap(d + 1, n as int);
        }
        while !self.players[next].is_alive()
            invariant
                self@ == g0,
                n == g0.players.len(),
                d == g0.dealer_idx,
                d < n,
                1 <= j <= n,
                next as int == seat_after(d as int, j as int, n as int),
                next < n,
                forall|i: int| 1 <= i < j ==> !(#[trigger] g0.players[seat_after(d as int, i, n as int)]).alive(),
                exists|i: int| 0 <= i < g0.players.len() && (#[trigger] g0.players[i]).alive(),
            decreases n - j,
        {
            proof {
                if j == n {
                    let w = choose|i: int| 0 <= i < g0.players.len() && (#[trigger] g0.players[i]).alive();
                    lemma_seat_steps(n as int, d as int, w);
                    let s = choose|s: int| 1 <= s <= n && #[trigger] seat_after(d as int, s, n as int) == w;
                    lemma_wrap(d + n, n as int);
                    assert(false);
                }
                lemma_wrap(d + j + 1, n as int);
                lemma_wrap(d + j, n as int);
            }
            next = if next + 1 < n {
                next + 1
            } else {
                0
            };
            j = j + 1;
        }
        proof {
            assert(is_next_alive_step(g0.players, d as int, j as int)) by {
                assert forall|i: int| 1 <= i < j implies !(#[trigger] g0.players[(d + i) % (n as int)]).alive() by {
                    assert(!g0.players[seat_after(d as int, i, n as int)].alive());
                }
            }
            let c = choose|k: int| is_next_alive_step(g0.players, d as int, k);
            assert(c == j) by {
                if c < j {
                    assert(!g0.players[(d + c) % (n as int)].alive());
                } else if j < c {
                    assert(!g0.players[(d + j) % (n as int)].alive());
                }
            }
        }
        self.dealer_idx = next;
    }

    /// Moves on after a round: a lone survivor wins; otherwise, if nobody survived, everybody
    /// is resurrected, the dealer chip passes on and the next round starts.
    fn handle_next_round(&mut self) -> (r: Result<(), GameError>)
        requires
            old(self)@.phase is RoundEnd ==> old(self)@.players.len() > 0 && old(self)@.dealer_idx
                < old(self)@.players.len() && (alive_indices(cleared_hands(old(self)@.players)).len()
                != 1 ==> old(self)@.between_rounds().can_start_round()),
        ensures
            old(self)@.next_round_step(final(self)@, r),
    {
        if let Phase::RoundEnd = self.phase {
        } else {
            return Err(GameError::InvalidAction);
        }
        let ghost g0 = self@;
        let ghost ps = cleared_hands(g0.players);
        let mut i: usize = 0;
        while i < self.players.len()
            invariant
                i <= self.players@.len(),
                self.players@.len() == g0.players.len(),
                ps == cleared_hands(g0.players),
                forall|j: int| 0 <= j < i ==> self.players@[j] == ps[j],
                forall|j: int| i <= j < g0.players.len() ==> self.players@[j] == g0.players[j],
                self@ == (GameModel { players: self@.players, ..g0 }),
            decreases self.players@.len() - i,
        {
            self.players[i].hand = None;
            i = i + 1;
        }
        proof {
            assert(self.players@ =~= ps);
        }
        let mut alive: Vec<usize> = Vec::new();
        let mut k: usize = 0;
        while k < self.players.len()
            invariant
                k <= self.players@.len(),
                self.players@ == ps,
                alive@ == alive_indices(ps.take(k as int)),
            decreases self.players@.len() - k,
        {
            if self.players[k].is_alive() {
                alive.push(k);
            }
            proof {
                assert(ps.take(k + 1).drop_last() =~= ps.take(k as int));
                assert(ps.take(k + 1).last() == ps[k as int]);
            }
            k = k + 1;
        }
        proof {
            assert(ps.take(k as int) =~= ps);
            lemma_alive_indices(ps);
        }
        if alive.len() == 1 {
            let winner_id = self.players[alive[0]].id;
            self.emit(GameEvent::GameWon { winner_id });
            self.phase = Phase::GameOver { winner: Some(winner_id) };
            return Ok(());
        }
        if alive.len() == 0 {
            self.emit(GameEvent::ResurrectionTriggered);
            let ghost ps2 = revived(ps, g0.alive_order);
            let ghost g1 = self@;
            let mut i: usize = 0;
            while i < self.players.len()
                invariant
                    i <= self.players@.len(),
                    self.players@.len() == ps.len(),
                    ps2 == revived(ps, g0.alive_order),
                    self.alive_order@ == g0.alive_order,
                    forall|j: int| 0 <= j < i ==> self.players@[j] == ps2[j],
                    forall|j: int| i <= j < ps.len() ==> self.players@[j] == ps[j],
                    self@ == (GameModel { players: self@.players, ..g1 }),
                decreases self.players@.len() - i,
            {
                if seat_listed(&self.alive_order, i) {
                    self.players[i].lives = 1;
                    self.players[i].is_eliminated = false;
                } else {
                    self.players[i].resurrect();
                }
                i = i + 1;
            }
            proof {
                assert(self.players@ =~= ps2);
                assert(self@.players[0].alive());
            }
        }
        proof {
            if alive@.len() >= 2 {
                assert(self@.players[alive@[0] as int].alive());
            }
        }
        self.advance_dealer();
        let new_dealer_id = self.players[self.dealer_idx].id;
        self.emit(GameEvent::DealerChipPassed { new_dealer_id });
        proof {
            assert(self@ =~= g0.between_rounds());
        }
        self.start_round();
        Ok(())
    }


    /// Processes an action from a player. The event log is emptied first and then holds
    /// what the action emitted.
    pub fn act(&mut self, player_id: PlayerId, action: Action) -> (r: Result<(), GameError>)
        requires
            old(self)@.can_act(player_id, action),
        ensures
            old(self)@.cleared_log().act_step(final(self)@, player_id, action, r),
    {
        self.events.clear();
        proof {
            assert(self@ =~= old(self)@.cleared_log());
        }
        match action {
            Action::StartGame { lives, blocker_tokens, exemption_tokens } => self.start_game(
                lives,
                blocker_tokens,
                exemption_tokens,
            ),
            Action::Pass => self.handle_pass(player_id),
            Action::Trade => self.handle_trade(player_id),
            Action::Block => self.handle_block(player_id),
            Action::AcceptTrade => self.handle_accept_trade(player_id),
            Action::DealerPass => self.handle_dealer_pass(player_id),
            Action::TakeOffTop => self.handle_take_off_top(player_id),
            Action::CowboyVote { exempt } => self.handle_cowboy_vote(player_id, exempt),
            Action::ResolveCowboyVote => self.handle_resolve_cowboy_vote(),
            Action::NextRound => self.handle_next_round(),
        }
    }

    /// Who is currently expected to act?
    pub fn current_actor(&self) -> (a: Option<PlayerId>)
        requires
            self@.can_name_actor(),
        ensures
            a == self@.actor(),
    {
        match &self.phase {
            Phase::NormalTurn { current_idx } => {
                let player_idx = self.alive_order[*current_idx];
                Some(self.players[player_idx].id)
            },
            Phase::WaitingForBlock { target_idx, .. } => {
                let player_idx = self.alive_order[*target_idx];
                Some(self.players[player_idx].id)
            },
            Phase::DealerTurn => {
                let dealer_player_idx = self.alive_order[self.alive_order.len() - 1];
                Some(self.players[dealer_player_idx].id)
            },
            _ => None,
        }
    }

    /// The alive players, in seat order.
    pub fn alive_players(&self) -> (v: Vec<&Player>)
        ensures
            v@.len() == alive_indices(self.players@).len(),
            forall|k: int|
                0 <= k < v@.len() ==> *(#[trigger] v@[k]) == self.players@[alive_indices(
                    self.players@,
                )[k] as int],
    {
        let mut v: Vec<&Player> = Vec::new();
        let ghost ai = alive_indices(self.players@);
        let mut k: usize = 0;
        while k < self.players.len()
            invariant
                k <= self.players@.len(),
                v@.len() == alive_indices(self.players@.take(k as int)).len(),
                forall|m: int|
                    0 <= m < v@.len() ==> *(#[trigger] v@[m]) == self.players@[alive_indices(
                        self.players@.take(k as int),
                    )[m] as int],
            decreases self.players@.len() - k,
        {
            let ghost t = self.players@.take(k as int);
            proof {
                assert(self.players@.take(k + 1).drop_last() =~= t);
                assert(self.players@.take(k + 1).last() == self.players@[k as int]);
                lemma_alive_indices(t);
            }
            if self.players[k].is_alive() {
                v.push(&self.players[k]);
            }
            k = k + 1;
        }
        proof {
            assert(self.players@.take(k as int) =~= self.players@);
        }
        v
    }

    /// The number of alive players.
    pub fn alive_count(&self) -> (n: usize)
        ensures
            n == alive_indices(self.players@).len(),
    {
        let mut n: usize = 0;
        let mut k: usize = 0;
        while k < self.players.len()
            invariant
                k <= self.players@.len(),
                n == alive_indices(self.players@.take(k as int)).len(),
            decreases self.players@.len() - k,
        {
            proof {
                assert(self.players@.take(k + 1).drop_last() =~= self.players@.take(k as int));
                assert(self.players@.take(k + 1).last() == self.players@[k as int]);
                lemma_alive_indices(self.players@.take(k as int));
            }
            if self.players[k].is_alive() {
                n = n + 1;
            }
            k = k + 1;
        }
        proof {
            assert(self.players@.take(k as int) =~= self.players@);
        }
        n
    }

    /// Whether a cowboy vote is open and every player of the order of play has voted.
    pub fn all_cowboy_votes_in(&self) -> (b: bool)
        requires
            self@.order_in_range(),
        ensures
            b == self@.all_voted(),
    {
        if let Phase::CowboyVote { votes } = &self.phase {
            let mut k: usize = 0;
            while k < self.alive_order.len()
                invariant
                    k <= self.alive_order@.len(),
                    self@.order_in_range(),
                    self@.phase == (PhaseModel::CowboyVote { votes: votes@ }),
                    forall|m: int| 0 <= m < k ==> voted(votes@, #[trigger] self@.seat_id(m)),
                decreases self.alive_order@.len() - k,
            {
                assert(self@.alive_order[k as int] < self@.players.len());
                let pid = self.players[self.alive_order[k]].id;
                if !vote_listed(votes, pid) {
                    assert(pid == self@.seat_id(k as int));
                    assert(!voted(votes@, self@.seat_id(k as int)));
                    return false;
                }
                k = k + 1;
            }
            true
        } else {
            false
        }
    }

}

} // verus!
