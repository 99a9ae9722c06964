use vstd::prelude::*;

use crate::game::{Action, EventModel, GameError, GameModel, PhaseModel};
use crate::player::{Player, PlayerId};
use crate::laws::law_round_order;
use crate::rules::{
    active_seats, has_player, ids_distinct, index_of, is_deal, king_seats, lemma_active_seats,
    lemma_alive_seats, lemma_reveals, round_order, shown_cards, voted, alive_indices,
    cleared_hands, lemma_alive_indices, equipped,
};

verus! {

/// A round is being played: somebody is to act or to vote.
pub open spec fn in_play(phase: PhaseModel) -> bool {
    ||| phase is NormalTurn
    ||| phase is WaitingForBlock
    ||| phase is DealerTurn
    ||| phase is CowboyVote
}

/// A normal round is being traded: a turn, a proposed trade, or the dealer's turn.
pub open spec fn trading(phase: PhaseModel) -> bool {
    ||| phase is NormalTurn
    ||| phase is WaitingForBlock
    ||| phase is DealerTurn
}

/// Staged votes that can be resolved: each names a player, none twice, and each exempt
/// vote comes from a token holder.
pub open spec fn votes_valid(players: Seq<Player>, votes: Seq<(PlayerId, bool)>) -> bool {
    &&& forall|k: int| 0 <= k < votes.len() ==> has_player(players, (#[trigger] votes[k]).0)
    &&& forall|a: int, b: int| 0 <= a < b < votes.len() ==> votes[a].0 != votes[b].0
    &&& forall|k: int|
        0 <= k < votes.len() && (#[trigger] votes[k]).1 ==> players[index_of(
            players,
            votes[k].0,
        )].exemption_tokens > 0
}

/// Every player of the order of play holds a card, and in a normal round none of them
/// holds a king.
pub open spec fn hands_dealt(g: GameModel) -> bool {
    &&& forall|k: int|
        0 <= k < g.alive_order.len() ==> (#[trigger] g.players[g.alive_order[k] as int]).hand is Some
    &&& !g.is_cowboy_round ==> forall|k: int|
        0 <= k < g.alive_order.len() ==> !(#[trigger] g.players[g.alive_order[k] as int]).hand.unwrap().is_king()
}

impl GameModel {
    /// The shape every started game keeps: a table of 2 to 52 players with distinct ids,
    /// a dealer seat, an order of play of distinct seats; while a round is played, at least
    /// two players in the order, all holding a card, and no king in a normal round; trading
    /// only in a normal round, turn positions inside the order, and valid staged votes in a
    /// cowboy round.
    pub open spec fn well_formed(self) -> bool {
        ||| self.phase is Lobby
        ||| {
            &&& 2 <= self.players.len() <= 52
            &&& ids_distinct(self.players)
            &&& self.dealer_idx < self.players.len()
            &&& self.order_in_range()
            &&& self.alive_order.no_duplicates()
            &&& self.alive_order.len() <= self.players.len()
            &&& in_play(self.phase) ==> self.alive_order.len() >= 2 && hands_dealt(self)
            &&& trading(self.phase) ==> !self.is_cowboy_round
            &&& self.phase matches PhaseModel::NormalTurn { current_idx } ==> current_idx + 1
                < self.alive_order.len()
            &&& self.phase matches PhaseModel::WaitingForBlock { trader_idx, target_idx }
                ==> target_idx == trader_idx + 1 && target_idx < self.alive_order.len()
            &&& self.phase matches PhaseModel::CowboyVote { votes } ==> self.is_cowboy_round
                && votes_valid(self.players, votes)
        }
    }
}

/// With every player of the order holding a card and no king in a normal round, the
/// showdown is defined.
pub proof fn lemma_can_show_down(g: GameModel)
    requires
        g.order_in_range(),
        g.alive_order.no_duplicates(),
        ids_distinct(g.players),
        hands_dealt(g),
    ensures
        g.can_show_down(),
{
    let active = active_seats(g.alive_order, g.exempted);
    lemma_active_seats(g.alive_order, g.exempted);
    assert forall|k: int| 0 <= k < active.len() implies (#[trigger] active[k]) < g.players.len() by {
        let j = choose|j: int| 0 <= j < g.alive_order.len() && g.alive_order[j] == active[k];
        assert(g.alive_order[j] < g.players.len());
    }
    lemma_reveals(g.players, active);
    let rs = shown_cards(g.players, active);
    if active.len() > 0 {
        let j = choose|j: int| 0 <= j < g.alive_order.len() && g.alive_order[j] == active[0];
        assert(g.players[g.alive_order[j] as int].hand is Some);
        assert(g.players[active[0] as int].hand is Some);
    }
    if !g.is_cowboy_round {
        assert forall|k: int| 0 <= k < rs.len() implies !(#[trigger] rs[k]).1.is_king() by {
            let j = choose|j: int|
                0 <= j < active.len() && g.players[active[j] as int].id == rs[k].0
                    && g.players[active[j] as int].hand == Some(rs[k].1);
            let m = choose|m: int| 0 <= m < g.alive_order.len() && g.alive_order[m] == active[j];
            assert(!g.players[g.alive_order[m] as int].hand.unwrap().is_king());
        }
    }
}

/// A seat of `seats` whose player holds a king is among the king seats.
pub proof fn lemma_king_seats_complete(players: Seq<Player>, seats: Seq<usize>)
    ensures
        forall|k: int|
            0 <= k < seats.len() && (#[trigger] players[seats[k] as int]).hand is Some && players[seats[k] as int].hand.unwrap().is_king()
                ==> king_seats(players, seats).contains(seats[k]),
    decreases seats.len(),
{
    if seats.len() > 0 {
        let prev = seats.drop_last();
        lemma_king_seats_complete(players, prev);
        let ks = king_seats(players, seats);
        let pk = king_seats(players, prev);
        assert forall|k: int|
            0 <= k < seats.len() && (#[trigger] players[seats[k] as int]).hand is Some && players[seats[k] as int].hand.unwrap().is_king()
                implies ks.contains(seats[k]) by {
            if k < seats.len() - 1 {
                assert(prev[k] == seats[k]);
                let m = choose|m: int| 0 <= m < pk.len() && pk[m] == prev[k];
                assert(ks[m] == pk[m]);
            } else {
                assert(seats.last() == seats[k]);
                assert(ks[ks.len() - 1] == seats[k]);
            }
        }
    }
}

/// A new round started from a table of 2 to 52 players with distinct ids and at least two
/// alive players is well formed.
pub proof fn lemma_round_started_well_formed(pre: GameModel, post: GameModel, a: int, b: int)
    requires
        2 <= pre.players.len() <= 52,
        ids_distinct(pre.players),
        pre.dealer_idx < pre.players.len(),
        0 <= a < pre.players.len(),
        0 <= b < pre.players.len(),
        a != b,
        pre.players[a].alive(),
        pre.players[b].alive(),
        pre.round_started(post),
    ensures
        post.well_formed(),
        post.alive_order == round_order(pre.players, pre.dealer_idx as int),
{
    let n = pre.players.len() as int;
    let d = pre.dealer_idx as int;
    let order = round_order(pre.players, d);
    law_round_order(pre.players, d);
    lemma_alive_seats(pre.players, d, pre.players.len());
    assert(order.contains(a as usize) && order.contains(b as usize));
    assert(order.len() >= 2) by {
        let ia = choose|i: int| 0 <= i < order.len() && order[i] == a as usize;
        let ib = choose|i: int| 0 <= i < order.len() && order[i] == b as usize;
        assert(ia != ib);
    }
    let m = pre.dealt(post.players, post.deck);
    assert(is_deal(pre.players, order, post.players, post.deck));
    assert forall|i: int, j: int| 0 <= i < j < post.players.len() implies post.players[i].id
        != post.players[j].id by {
        if order.contains(i as usize) {
            assert(post.players[i].id == pre.players[i].id);
        }
        if order.contains(j as usize) {
            assert(post.players[j].id == pre.players[j].id);
        }
    }
    assert forall|k: int| 0 <= k < order.len() implies (#[trigger] post.players[order[k] as int]).hand is Some by {
        assert(order.contains(order[k]));
    }
    lemma_king_seats_complete(post.players, order);
    let kings = king_seats(post.players, order);
    if kings.len() == 0 {
        assert forall|k: int| 0 <= k < order.len() implies !(#[trigger] post.players[order[k] as int]).hand.unwrap().is_king() by {
            assert(order.contains(order[k]));
            if post.players[order[k] as int].hand.unwrap().is_king() {
                assert(kings.contains(order[k]));
            }
        }
    }
}

/// The dealer's draw keeps every player of the order holding a card, and a card that is
/// not a king keeps a normal round free of kings.
proof fn lemma_draw_keeps_hands(g: GameModel, id: PlayerId)
    requires
        hands_dealt(g),
        g.order_in_range(),
        g.alive_order.len() > 0,
        g.deck.len() > 0,
        !g.deck.last().is_king() || g.is_cowboy_round,
    ensures
        hands_dealt(g.after_draw(id)),
        g.after_draw(id).alive_order == g.alive_order,
        g.after_draw(id).players.len() == g.players.len(),
        forall|i: int| 0 <= i < g.players.len() ==> (#[trigger] g.after_draw(id).players[i]).id == g.players[i].id,
{
    let h = g.after_draw(id);
    let d = g.alive_order.last() as int;
    assert forall|k: int| 0 <= k < h.alive_order.len() implies (#[trigger] h.players[h.alive_order[k] as int]).hand is Some by {
        assert(g.players[g.alive_order[k] as int].hand is Some);
    }
    if !h.is_cowboy_round {
        assert forall|k: int| 0 <= k < h.alive_order.len() implies !(#[trigger] h.players[h.alive_order[k] as int]).hand.unwrap().is_king() by {
            assert(!g.players[g.alive_order[k] as int].hand.unwrap().is_king());
        }
    }
}

/// A well-formed game runs any action to completion, but for starting it from its lobby
/// (which needs lives and enough cards), moving on from the last round number, and the
/// dealer drawing from an empty deck.
pub proof fn law_well_formed_can_act(g: GameModel, id: PlayerId, action: Action)
    requires
        g.well_formed(),
        action is StartGame ==> !(g.phase is Lobby),
        action is NextRound && g.phase is RoundEnd ==> g.round_number < u32::MAX,
        action is TakeOffTop && g.phase is DealerTurn && g.actor() == Some(id) ==> g.deck.len() > 0,
    ensures
        g.can_act(id, action),
{
    match action {
        Action::DealerPass => {
            if g.phase is DealerTurn {
                lemma_can_show_down(g);
            }
        },
        Action::TakeOffTop => {
            if g.phase is DealerTurn && g.seat_id(g.alive_order.len() - 1) == id
                && !g.deck.last().is_king() {
                lemma_draw_keeps_hands(g, id);
                let h = g.after_draw(id);
                assert(ids_distinct(h.players));
                lemma_can_show_down(h);
            }
        },
        Action::ResolveCowboyVote => {
            if let PhaseModel::CowboyVote { votes } = g.phase {
                let h = g.votes_applied(votes);
                let fv = crate::rules::final_votes(g.players, g.alive_order, votes);
                crate::rules::lemma_final_votes(g.players, g.alive_order, votes);
                crate::rules::lemma_votes_distinct(g.players, fv);
                assert(ids_distinct(h.players));
                assert(hands_dealt(h)) by {
                    assert forall|k: int| 0 <= k < h.alive_order.len() implies (#[trigger] h.players[h.alive_order[k] as int]).hand is Some by {
                        assert(g.players[g.alive_order[k] as int].hand is Some);
                    }
                }
                lemma_can_show_down(h);
            }
        },
        Action::NextRound => {
            if g.phase is RoundEnd {
                lemma_next_round_can_start(g);
            }
        },
        _ => {},
    }
}

/// Between rounds of a well-formed game (with a round number left), the next round can
/// be started, and at least two players are alive for it.
proof fn lemma_next_round_can_start(g: GameModel)
    requires
        g.well_formed(),
        g.phase is RoundEnd,
        g.round_number < u32::MAX,
    ensures
        alive_indices(cleared_hands(g.players)).len() != 1 ==> ({
            let b = g.between_rounds();
            &&& b.can_start_round()
            &&& exists|i: int, j: int|
                0 <= i < b.players.len() && 0 <= j < b.players.len() && i != j
                    && b.players[i].alive() && b.players[j].alive()
        }),
{
    let ps = cleared_hands(g.players);
    lemma_alive_indices(ps);
    if alive_indices(ps).len() != 1 {
        let b = g.between_rounds();
        let ps2 = b.players;
        let (i0, j0) = if alive_indices(ps).len() == 0 {
            assert(ps2[0].alive() && ps2[1].alive());
            (0int, 1int)
        } else {
            let a = alive_indices(ps);
            assert(a[0] < a[1]);
            assert(ps2 == ps);
            (a[0] as int, a[1] as int)
        };
        assert(ps2[i0].alive() && ps2[j0].alive() && i0 != j0);
        assert(ps2.len() == g.players.len());
        crate::laws::law_next_dealer(ps2, g.dealer_idx as int);
        law_round_order(ps2, b.dealer_idx as int);
        lemma_alive_seats(ps2, b.dealer_idx as int, ps2.len());
        let order = round_order(ps2, b.dealer_idx as int);
        assert(order.contains(b.dealer_idx));
    }
}

/// The table part of the shape: 2 to 52 players with distinct ids, a dealer seat and an
/// order of play of distinct seats.
pub open spec fn table_ok(g: GameModel) -> bool {
    &&& 2 <= g.players.len() <= 52
    &&& ids_distinct(g.players)
    &&& g.dealer_idx < g.players.len()
    &&& g.order_in_range()
    &&& g.alive_order.no_duplicates()
    &&& g.alive_order.len() <= g.players.len()
}

/// The round part of the shape: at least two players in the order, all holding a card, no
/// king in a normal round.
pub open spec fn round_ok(g: GameModel) -> bool {
    &&& table_ok(g)
    &&& g.alive_order.len() >= 2
    &&& hands_dealt(g)
}

/// Passing the turn on keeps the shape.
proof fn lemma_turn_from_keeps(g: GameModel, idx: int)
    requires
        round_ok(g),
        !g.is_cowboy_round,
        0 <= idx <= usize::MAX,
    ensures
        g.turn_from(idx).well_formed(),
{
}

/// The showdown keeps the table and ends the round.
proof fn lemma_showdown_keeps(g: GameModel)
    requires
        table_ok(g),
    ensures
        g.showdown().well_formed(),
        g.showdown().phase is RoundEnd,
{
    let post = g.showdown();
    crate::rules::lemma_showdown_frame(g);
    assert forall|i: int, j: int| 0 <= i < j < post.players.len() implies post.players[i].id
        != post.players[j].id by {
        assert(post.players[i].id == g.players[i].id);
        assert(post.players[j].id == g.players[j].id);
    }
}

/// Exchanging the hands of two players of the order keeps every player of the order
/// holding a card, and no king appears in a normal round.
proof fn lemma_trade_keeps(g: GameModel, a: int, b: int)
    requires
        round_ok(g),
        0 <= a < g.alive_order.len(),
        0 <= b < g.alive_order.len(),
    ensures
        round_ok(g.traded(a, b)),
        g.traded(a, b).deck == g.deck,
{
    let h = g.traded(a, b);
    let from = g.alive_order[a] as int;
    let to = g.alive_order[b] as int;
    assert forall|i: int, j: int| 0 <= i < j < h.players.len() implies h.players[i].id
        != h.players[j].id by {
        assert(h.players[i].id == g.players[i].id);
        assert(h.players[j].id == g.players[j].id);
    }
    assert forall|k: int| 0 <= k < h.alive_order.len() implies (#[trigger] h.players[h.alive_order[k] as int]).hand is Some
        && (!h.is_cowboy_round ==> !h.players[h.alive_order[k] as int].hand.unwrap().is_king()) by {
        assert(g.players[g.alive_order[k] as int].hand is Some);
        assert(g.players[g.alive_order[a] as int].hand is Some);
        assert(g.players[g.alive_order[b] as int].hand is Some);
        if !g.is_cowboy_round {
            assert(!g.players[g.alive_order[k] as int].hand.unwrap().is_king());
            assert(!g.players[g.alive_order[a] as int].hand.unwrap().is_king());
            assert(!g.players[g.alive_order[b] as int].hand.unwrap().is_king());
        }
    }
}

/// Every action keeps a well-formed game well formed; a game is started from at most 52
/// players with distinct ids, and moving to a new round needs a round number left.
pub proof fn law_act_keeps_well_formed(
    g: GameModel,
    post: GameModel,
    id: PlayerId,
    action: Action,
    r: Result<(), GameError>,
)
    requires
        g.well_formed(),
        g.can_act(id, action),
        g.cleared_log().act_step(post, id, action, r),
        action is StartGame ==> g.players.len() <= 52 && ids_distinct(g.players),
        action is NextRound && g.phase is RoundEnd ==> g.round_number < u32::MAX,
    ensures
        post.well_formed(),
{
    let c = g.cleared_log();
    if r is Err {
        assert(post == c);
    } else {
        match action {
            Action::StartGame { lives, blocker_tokens, exemption_tokens } => {
                let players = equipped(c.players, lives, blocker_tokens, exemption_tokens);
                let mid = GameModel {
                    players,
                    original_player_count: c.players.len() as usize,
                    dealer_idx: post.dealer_idx,
                    events: c.events.push(
                        EventModel::GameStarted { dealer_id: players[post.dealer_idx as int].id },
                    ),
                    ..c
                };
                assert(mid.round_started(post));
                assert(players[0].alive() && players[1].alive());
                assert forall|i: int, j: int| 0 <= i < j < players.len() implies players[i].id
                    != players[j].id by {
                    assert(players[i].id == c.players[i].id);
                    assert(players[j].id == c.players[j].id);
                }
                lemma_round_started_well_formed(mid, post, 0, 1);
            },
            Action::Pass => {
                if let PhaseModel::NormalTurn { current_idx } = c.phase {
                    lemma_turn_from_keeps(
                        c.with_event(EventModel::PlayerPassed { player_id: id }),
                        current_idx + 1,
                    );
                }
            },
            Action::Trade => {
                if let PhaseModel::NormalTurn { current_idx } = c.phase {
                    let ci = current_idx as int;
                    let target = c.alive_order[ci + 1] as int;
                    let proposed = c.with_event(
                        EventModel::TradeProposed { from_id: id, to_id: c.players[target].id },
                    );
                    if !(c.players[target].blocker_tokens > 0) {
                        lemma_trade_keeps(proposed, ci, ci + 1);
                        lemma_turn_from_keeps(proposed.traded(ci, ci + 1), ci + 1);
                    }
                }
            },
            Action::Block => {
                if let PhaseModel::WaitingForBlock { trader_idx, target_idx } = c.phase {
                    let t = c.alive_order[target_idx as int] as int;
                    let p = c.players[t];
                    let h = GameModel {
                        players: c.players.update(
                            t,
                            Player { blocker_tokens: (p.blocker_tokens - 1) as u8, ..p },
                        ),
                        ..c.with_event(EventModel::TradeBlocked { blocker_id: id })
                    };
                    assert forall|i: int, j: int| 0 <= i < j < h.players.len() implies h.players[i].id
                        != h.players[j].id by {
                        assert(h.players[i].id == c.players[i].id);
                        assert(h.players[j].id == c.players[j].id);
                    }
                    assert forall|k: int| 0 <= k < h.alive_order.len() implies (#[trigger] h.players[h.alive_order[k] as int]).hand
                        == c.players[c.alive_order[k] as int].hand by {}
                    lemma_turn_from_keeps(h, trader_idx + 1);
                }
            },
            Action::AcceptTrade => {
                if let PhaseModel::WaitingForBlock { trader_idx, target_idx } = c.phase {
                    lemma_trade_keeps(c, trader_idx as int, target_idx as int);
                    lemma_turn_from_keeps(c.traded(trader_idx as int, target_idx as int), trader_idx + 1);
                }
            },
            Action::DealerPass => {
                lemma_showdown_keeps(c.with_event(EventModel::DealerPassed { dealer_id: id }));
            },
            Action::TakeOffTop => {
                let card = c.deck.last();
                let c2 = GameModel { is_cowboy_round: c.is_cowboy_round || card.is_king(), ..c };
                lemma_draw_keeps_hands(c2, id);
                let drawn = c2.after_draw(id);
                assert forall|i: int, j: int| 0 <= i < j < drawn.players.len() implies drawn.players[i].id
                    != drawn.players[j].id by {
                    assert(drawn.players[i].id == c.players[i].id);
                    assert(drawn.players[j].id == c.players[j].id);
                }
                if !card.is_king() {
                    lemma_showdown_keeps(drawn);
                }
            },
            Action::CowboyVote { exempt } => {
                if let PhaseModel::CowboyVote { votes } = c.phase {
                    let nv = votes.push((id, exempt));
                    assert(votes_valid(c.players, nv)) by {
                        assert forall|k: int| 0 <= k < nv.len() implies has_player(c.players, (#[trigger] nv[k]).0) by {
                            if k < votes.len() {
                                assert(nv[k] == votes[k]);
                            }
                        }
                        assert forall|a: int, b: int| 0 <= a < b < nv.len() implies nv[a].0 != nv[b].0 by {
                            if b == votes.len() {
                                assert(nv[a] == votes[a]);
                                assert(!voted(votes, id));
                            } else {
                                assert(nv[a] == votes[a] && nv[b] == votes[b]);
                            }
                        }
                        assert forall|k: int| 0 <= k < nv.len() && (#[trigger] nv[k]).1 implies c.players[index_of(
                            c.players,
                            nv[k].0,
                        )].exemption_tokens > 0 by {
                            if k < votes.len() {
                                assert(nv[k] == votes[k]);
                            }
                        }
                    }
                }
            },
            Action::ResolveCowboyVote => {
                if let PhaseModel::CowboyVote { votes } = c.phase {
                    let h = c.votes_applied(votes);
                    let fv = crate::rules::final_votes(c.players, c.alive_order, votes);
                    crate::rules::lemma_final_votes(c.players, c.alive_order, votes);
                    crate::rules::lemma_votes_distinct(c.players, fv);
                    assert forall|i: int, j: int| 0 <= i < j < h.players.len() implies h.players[i].id
                        != h.players[j].id by {
                        assert(h.players[i].id == c.players[i].id);
                        assert(h.players[j].id == c.players[j].id);
                    }
                    lemma_showdown_keeps(h);
                }
            },
            Action::NextRound => {
                let ps = cleared_hands(c.players);
                if alive_indices(ps).len() != 1 {
                    lemma_next_round_can_start(c);
                    let b = c.between_rounds();
                    let (i, j) = choose|i: int, j: int|
                        0 <= i < b.players.len() && 0 <= j < b.players.len() && i != j
                            && b.players[i].alive() && b.players[j].alive();
                    assert forall|x: int, y: int| 0 <= x < y < b.players.len() implies b.players[x].id
                        != b.players[y].id by {
                        assert(b.players[x].id == c.players[x].id);
                        assert(b.players[y].id == c.players[y].id);
                    }
                    lemma_round_started_well_formed(b, post, i, j);
                } else {
                    let w = ps[alive_indices(ps)[0] as int].id;
                    assert(post.players == ps);
                    assert forall|x: int, y: int| 0 <= x < y < ps.len() implies ps[x].id != ps[y].id by {
                        assert(ps[x].id == c.players[x].id);
                        assert(ps[y].id == c.players[y].id);
                    }
                }
            },
        }
    }
}

/// Once a game has left its lobby, no action brings it back there.
pub proof fn law_no_return_to_lobby(
    g: GameModel,
    post: GameModel,
    id: PlayerId,
    action: Action,
    r: Result<(), GameError>,
)
    requires
        !(g.phase is Lobby),
        g.cleared_log().act_step(post, id, action, r),
    ensures
        !(post.phase is Lobby),
{
}

/// Kings never appear in trades: while a normal round is traded (a turn, a proposed
/// trade, the dealer's turn before drawing), every player of the order of play holds a
/// card and none of them a king.
pub proof fn law_no_kings_in_trades(g: GameModel)
    requires
        g.well_formed(),
        trading(g.phase),
    ensures
        forall|k: int|
            0 <= k < g.alive_order.len() ==> (#[trigger] g.players[g.alive_order[k] as int]).hand is Some
                && !g.players[g.alive_order[k] as int].hand.unwrap().is_king(),
{
}

/// A well-formed game, once started, names its actor.
pub proof fn law_well_formed_names_actor(g: GameModel)
    requires
        g.well_formed(),
        !(g.phase is Lobby),
    ensures
        g.can_name_actor(),
{
}


/// Whether a player holds a king.
pub open spec fn holds_king(p: Player) -> bool {
    p.hand matches Some(c) && c.is_king()
}

/// While a normal round is traded, it is a normal round and no player of the order of
/// play holds a king.
pub open spec fn kings_out_of_trades(g: GameModel) -> bool {
    trading(g.phase) ==> !g.is_cowboy_round && forall|k: int|
        0 <= k < g.alive_order.len() ==> !holds_king(#[trigger] g.players[g.alive_order[k] as int])
}

/// With no king seat among `seats`, none of their players holds a king.
proof fn lemma_no_king_seats(players: Seq<Player>, seats: Seq<usize>)
    requires
        king_seats(players, seats).len() == 0,
    ensures
        forall|k: int| 0 <= k < seats.len() ==> !holds_king(#[trigger] players[seats[k] as int]),
    decreases seats.len(),
{
    if seats.len() > 0 {
        let prev = seats.drop_last();
        lemma_no_king_seats(players, prev);
        assert forall|k: int| 0 <= k < seats.len() implies !holds_king(#[trigger] players[seats[k] as int]) by {
            if k < prev.len() {
                assert(seats[k] == prev[k]);
            }
        }
    }
}

/// The king check lets trading start only when nobody of the order holds a king.
proof fn lemma_king_check_out_of_trades(d: GameModel)
    requires
        !d.is_cowboy_round,
        d.phase is KingCheck,
    ensures
        kings_out_of_trades(d.after_king_check()),
{
    let kings = king_seats(d.players, d.alive_order);
    if kings.len() == 0 {
        lemma_no_king_seats(d.players, d.alive_order);
        let post = d.after_king_check();
        assert forall|k: int| 0 <= k < post.alive_order.len() implies !holds_king(
            #[trigger] post.players[post.alive_order[k] as int],
        ) by {
            assert(!holds_king(d.players[d.alive_order[k] as int]));
        }
    }
}

/// Exchanging the hands of two seats of the order brings no king into the order.
proof fn lemma_swap_keeps_kings_out(g: GameModel, a: int, b: int)
    requires
        g.order_in_range(),
        0 <= a < g.alive_order.len(),
        0 <= b < g.alive_order.len(),
        forall|k: int|
            0 <= k < g.alive_order.len() ==> !holds_king(#[trigger] g.players[g.alive_order[k] as int]),
    ensures
        ({
            let t = g.traded(a, b);
            forall|k: int|
                0 <= k < t.alive_order.len() ==> !holds_king(#[trigger] t.players[t.alive_order[k] as int])
        }),
{
    let t = g.traded(a, b);
    let from = g.alive_order[a] as int;
    let to = g.alive_order[b] as int;
    assert(!holds_king(g.players[from]));
    assert(!holds_king(g.players[to]));
    assert forall|k: int| 0 <= k < t.alive_order.len() implies !holds_king(
        #[trigger] t.players[t.alive_order[k] as int],
    ) by {
        let s = g.alive_order[k] as int;
        assert(!holds_king(g.players[s]));
        if s != from && s != to {
            assert(t.players[s] == g.players[s]);
        }
    }
}

/// Kings never appear in trades, in any game however it was seated: a game in its lobby
/// trades nothing, and every action keeps it so that while a normal round is traded (a
/// turn, a proposed trade, the dealer's turn before drawing) the round is a normal one and
/// no player of the order of play holds a king.
pub proof fn law_kings_never_traded(
    g: GameModel,
    post: GameModel,
    id: PlayerId,
    action: Action,
    r: Result<(), GameError>,
)
    requires
        kings_out_of_trades(g),
        g.can_act(id, action),
        g.cleared_log().act_step(post, id, action, r),
    ensures
        kings_out_of_trades(post),
{
    let c = g.cleared_log();
    if r is Err {
        assert(post == c);
        return;
    }
    match action {
        Action::StartGame { lives, blocker_tokens, exemption_tokens } => {
            let players = equipped(c.players, lives, blocker_tokens, exemption_tokens);
            let mid = GameModel {
                players,
                original_player_count: c.players.len() as usize,
                dealer_idx: post.dealer_idx,
                events: c.events.push(
                    EventModel::GameStarted { dealer_id: players[post.dealer_idx as int].id },
                ),
                ..c
            };
            lemma_king_check_out_of_trades(mid.dealt(post.players, post.deck));
        },
        Action::NextRound => {
            if alive_indices(cleared_hands(c.players)).len() != 1 {
                let d = c.between_rounds().dealt(post.players, post.deck);
                lemma_king_check_out_of_trades(d);
            }
        },
        Action::Trade => {
            if let PhaseModel::NormalTurn { current_idx } = c.phase {
                let ci = current_idx as int;
                let target = c.alive_order[ci + 1] as int;
                if c.players[target].blocker_tokens == 0 {
                    let proposed = c.with_event(
                        EventModel::TradeProposed { from_id: id, to_id: c.players[target].id },
                    );
                    lemma_swap_keeps_kings_out(proposed, ci, ci + 1);
                }
            }
        },
        Action::AcceptTrade => {
            if let PhaseModel::WaitingForBlock { trader_idx, target_idx } = c.phase {
                lemma_swap_keeps_kings_out(c, trader_idx as int, target_idx as int);
            }
        },
        Action::Block => {
            if let PhaseModel::WaitingForBlock { trader_idx, target_idx } = c.phase {
                let t = c.alive_order[target_idx as int] as int;
                assert forall|k: int| 0 <= k < post.alive_order.len() implies !holds_king(
                    #[trigger] post.players[post.alive_order[k] as int],
                ) by {
                    let s = c.alive_order[k] as int;
                    assert(!holds_king(c.players[s]));
                    assert(post.players[s].hand == c.players[s].hand);
                }
            }
        },
        _ => {},
    }
}

} // verus!
