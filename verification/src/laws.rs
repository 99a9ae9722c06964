use vstd::prelude::*;

use crate::card::{
    Card, Rank, Suit, cowboy_rank_value, fresh_card, fresh_deck, normal_rank_value, rank_at,
    rank_index, suit_at,
};
use crate::game::{EventModel, GameError, GameModel, PhaseModel};
use crate::lobby::{is_first_lobby_id, is_first_with_token, public_view, seated, Lobby};
use crate::shape::holds_king;
use crate::player::{Player, PlayerId};
use crate::rules::{
    active_seats, after_losses, alive_indices, card_value, cleared_hands,
    ids_distinct, is_next_alive_step, lemma_active_seats, lemma_alive_indices, lemma_alive_seats,
    lemma_index_of_distinct, lemma_loser_ids, lemma_lowest_value, lemma_reveals, lemma_wrap,
    loser_ids, lowest_value, next_alive_seat, round_order, seat_after, shown_cards,
    swap_hands, equipped, voted, final_votes, exempt_seats, has_player, index_of,
    is_first_with_id, lemma_same_ids_same_index, king_seats,
};

verus! {

// ---------------------------------------------------------------------------
// Cards
// ---------------------------------------------------------------------------

/// In a normal round the King has no value, the Ace is lowest (0), the Queen highest (11),
/// and values follow the order Ace, Two, ..., Queen; suits play no part.
pub proof fn law_normal_ranking(a: Rank, b: Rank)
    ensures
        normal_rank_value(Rank::King) is None,
        normal_rank_value(Rank::Ace) == Some(0u8),
        normal_rank_value(Rank::Queen) == Some(11u8),
        a != Rank::King ==> normal_rank_value(a) is Some && normal_rank_value(a).unwrap() <= 11,
        a != Rank::King && b != Rank::King ==> (normal_rank_value(a).unwrap()
            < normal_rank_value(b).unwrap() <==> rank_index(a) < rank_index(b)),
        a != Rank::King && b != Rank::King ==> (normal_rank_value(a) == normal_rank_value(b)
            <==> a == b),
{
}

/// In a cowboy round the Two is lowest (0), the King is 11 and the Ace highest (12);
/// every rank has its own value.
pub proof fn law_cowboy_ranking(a: Rank, b: Rank)
    ensures
        cowboy_rank_value(Rank::Two) == 0,
        cowboy_rank_value(Rank::King) == 11,
        cowboy_rank_value(Rank::Ace) == 12,
        cowboy_rank_value(a) <= 12,
        cowboy_rank_value(a) == cowboy_rank_value(b) <==> a == b,
        a != Rank::Ace && b != Rank::Ace ==> (cowboy_rank_value(a) < cowboy_rank_value(b)
            <==> rank_index(a) < rank_index(b)),
{
}

/// A fresh deck holds each of the 52 cards exactly once; its four kings sit at the top of
/// each suit.
pub proof fn law_fresh_deck(c: Card)
    ensures
        fresh_deck().len() == 52,
        fresh_deck().no_duplicates(),
        fresh_deck().to_multiset().count(c) == 1,
        forall|i: int| 0 <= i < 52 ==> ((#[trigger] fresh_deck()[i]).is_king() <==> i % 13 == 12),
{
    let d = fresh_deck();
    assert forall|i: int, j: int| 0 <= i < j < 52 implies d[i] != d[j] by {
        assert(rank_index(rank_at(i % 13)) == i % 13);
        assert(rank_index(rank_at(j % 13)) == j % 13);
        if d[i] == d[j] {
            assert(i % 13 == j % 13);
            assert(i / 13 == j / 13) by {
                assert(suit_at(i / 13) == suit_at(j / 13));
            }
            assert(i == 13 * (i / 13) + i % 13);
            assert(j == 13 * (j / 13) + j % 13);
        }
    }
    let si: int = match c.suit {
        Suit::Hearts => 0,
        Suit::Diamonds => 1,
        Suit::Clubs => 2,
        Suit::Spades => 3,
    };
    let k = 13 * si + rank_index(c.rank);
    assert(k % 13 == rank_index(c.rank) && k / 13 == si);
    assert(d[k] == c);
    d.lemma_multiset_has_no_duplicates();
    assert(d.to_multiset().contains(c)) by {
        broadcast use vstd::seq_lib::group_to_multiset_ensures;

        assert(d.contains(c));
    }
    assert forall|i: int| 0 <= i < 52 implies ((#[trigger] d[i]).is_king() <==> i % 13 == 12) by {
        assert(d[i] == fresh_card(i));
    }
}

/// Putting a card on the deck and dealing one gives that card back and leaves the deck as
/// it was.
pub proof fn law_push_then_deal(deck: Seq<Card>, c: Card)
    ensures
        deck.push(c).len() > 0,
        deck.push(c).last() == c,
        deck.push(c).drop_last() == deck,
{
    assert(deck.push(c).drop_last() =~= deck);
}

// ---------------------------------------------------------------------------
// Players
// ---------------------------------------------------------------------------

/// Losing a life takes exactly one life from a player who has one, never goes below zero,
/// and leaves a player alive exactly when two lives or more were left; a resurrected
/// player is alive with one life and no tokens.
pub proof fn law_lives(p: Player)
    ensures
        p.lives > 0 ==> p.after_losing_life().lives == p.lives - 1,
        p.lives == 0 ==> p.after_losing_life().lives == 0,
        p.after_losing_life().alive() <==> (!p.is_eliminated && p.lives >= 2),
        p.after_losing_life().lives == 0 ==> p.after_losing_life().is_eliminated,
        p.resurrected().alive(),
        p.resurrected().lives == 1,
        p.resurrected().exemption_tokens == 0 && p.resurrected().blocker_tokens == 0,
{
}

// ---------------------------------------------------------------------------
// Seating
// ---------------------------------------------------------------------------

/// The order of play holds every alive player exactly once and nobody else, and ends with
/// the dealer when the dealer is alive.
pub proof fn law_round_order(players: Seq<Player>, d: int)
    requires
        0 <= d < players.len(),
        players.len() <= usize::MAX,
    ensures
        round_order(players, d).no_duplicates(),
        forall|i: int|
            0 <= i < players.len() ==> (round_order(players, d).contains(i as usize) <==> (
            #[trigger] players[i]).alive()),
        forall|m: int|
            0 <= m < round_order(players, d).len() ==> (#[trigger] round_order(players, d)[m])
                < players.len(),
        players[d].alive() ==> round_order(players, d).last() == d as usize,
{
    let n = players.len() as int;
    lemma_alive_seats(players, d, players.len());
    let s = round_order(players, d);
    assert forall|i: int| 0 <= i < n implies (s.contains(i as usize) <==> (#[trigger] players[i]).alive()) by {
        if players[i].alive() {
            crate::rules::lemma_seat_steps(n, d, i);
            let j = choose|j: int| 1 <= j <= n && #[trigger] seat_after(d, j, n) == i;
            assert(players[(d + j) % n].alive());
        }
        if s.contains(i as usize) {
            let m = choose|m: int| 0 <= m < s.len() && s[m] == i as usize;
            assert(players[s[m] as int].alive());
        }
    }
    if players[d].alive() {
        lemma_wrap(d + n, n);
        assert(s.last() == d as usize);
    }
}

/// The dealer chip goes to an alive player, and every player passed over on the way is
/// out of the game.
pub proof fn law_next_dealer(players: Seq<Player>, d: int)
    requires
        0 <= d < players.len(),
        exists|i: int| 0 <= i < players.len() && (#[trigger] players[i]).alive(),
    ensures
        0 <= next_alive_seat(players, d) < players.len(),
        players[next_alive_seat(players, d)].alive(),
        exists|k: int|
            #[trigger] is_next_alive_step(players, d, k) && next_alive_seat(players, d) == (d + k) % (
            players.len() as int),
{
    let n = players.len() as int;
    let w = choose|i: int| 0 <= i < players.len() && (#[trigger] players[i]).alive();
    crate::rules::lemma_seat_steps(n, d, w);
    let jw = choose|j: int| 1 <= j <= n && #[trigger] seat_after(d, j, n) == w;
    lemma_first_alive_step(players, d, jw);
    let k = choose|k: int| is_next_alive_step(players, d, k);
    assert(is_next_alive_step(players, d, k));
    assert(0 <= (d + k) % n < n);
}

/// Some step up to `j` is the first alive one, when the seat `j` steps away is alive.
proof fn lemma_first_alive_step(players: Seq<Player>, d: int, j: int)
    requires
        1 <= j <= players.len(),
        players[(d + j) % (players.len() as int)].alive(),
    ensures
        exists|k: int| is_next_alive_step(players, d, k),
    decreases j,
{
    let n = players.len() as int;
    if forall|i: int| 1 <= i < j ==> !(#[trigger] players[(d + i) % n]).alive() {
        assert(is_next_alive_step(players, d, j));
    } else {
        let i = choose|i: int| 1 <= i < j && (#[trigger] players[(d + i) % n]).alive();
        lemma_first_alive_step(players, d, i);
    }
}

// ---------------------------------------------------------------------------
// Trading
// ---------------------------------------------------------------------------

/// A trade exchanges the two hands and nothing else; trading back restores the table.
pub proof fn law_trade(players: Seq<Player>, i: int, j: int)
    requires
        0 <= i < players.len(),
        0 <= j < players.len(),
    ensures
        swap_hands(players, i, j).len() == players.len(),
        swap_hands(players, i, j)[i].hand == players[j].hand,
        swap_hands(players, i, j)[j].hand == players[i].hand,
        forall|k: int|
            0 <= k < players.len() && k != i && k != j ==> #[trigger] swap_hands(players, i, j)[k]
                == players[k],
        swap_hands(swap_hands(players, i, j), i, j) == players,
{
    let s = swap_hands(players, i, j);
    assert(swap_hands(s, i, j) =~= players);
}

// ---------------------------------------------------------------------------
// Showdown
// ---------------------------------------------------------------------------

/// Seat `i` is active in the showdown (in the order of play, not exempted) and holds a card.
pub open spec fn shows_card(g: GameModel, i: int) -> bool {
    &&& g.alive_order.contains(i as usize)
    &&& !g.exempted.contains(i as usize)
    &&& g.players[i].hand is Some
}

/// The showdown at a table of distinct ids: the lowest value is held by some active player
/// and nobody active holds a lower one; a player loses exactly one life when active,
/// holding a card of the lowest value, and nobody else is touched.
pub proof fn law_showdown(g: GameModel)
    requires
        g.can_show_down(),
        ids_distinct(g.players),
        active_seats(g.alive_order, g.exempted).len() > 0,
        g.players.len() <= usize::MAX,
    ensures
        ({
            let active = active_seats(g.alive_order, g.exempted);
            let rs = shown_cards(g.players, active);
            let low = lowest_value(rs, g.is_cowboy_round);
            let post = g.showdown();
            &&& post.phase == PhaseModel::RoundEnd
            &&& post.players.len() == g.players.len()
            &&& forall|i: int|
                0 <= i < g.players.len() && #[trigger] shows_card(g, i) ==> low <= card_value(
                    g.players[i].hand.unwrap(),
                    g.is_cowboy_round,
                )
            &&& exists|i: int|
                0 <= i < g.players.len() && #[trigger] shows_card(g, i) && card_value(
                    g.players[i].hand.unwrap(),
                    g.is_cowboy_round,
                ) == low
            &&& forall|i: int|
                0 <= i < g.players.len() ==> (#[trigger] post.players[i]) == if shows_card(g, i)
                    && card_value(g.players[i].hand.unwrap(), g.is_cowboy_round) == low {
                    g.players[i].after_losing_life()
                } else {
                    g.players[i]
                }
        }),
{
    let active = active_seats(g.alive_order, g.exempted);
    let rs = shown_cards(g.players, active);
    let cowboy = g.is_cowboy_round;
    let low = lowest_value(rs, cowboy);
    let losers = loser_ids(rs, cowboy, low);
    lemma_active_seats(g.alive_order, g.exempted);
    assert forall|k: int| 0 <= k < active.len() implies (#[trigger] active[k]) < g.players.len() by {
        let j = choose|j: int| 0 <= j < g.alive_order.len() && g.alive_order[j] == active[k];
        assert(g.alive_order[j] < g.players.len());
    }
    lemma_reveals(g.players, active);
    lemma_lowest_value(rs, cowboy);
    lemma_loser_ids(rs, cowboy, low);
    assert forall|i: int| 0 <= i < g.players.len() && #[trigger] shows_card(g, i) implies exists|k: int|
        0 <= k < rs.len() && rs[k].0 == g.players[i].id && rs[k].1 == g.players[i].hand.unwrap() by {
        assert(active.contains(i as usize));
        let j = choose|j: int| 0 <= j < active.len() && active[j] == i as usize;
        assert(active[j] as int == i);
        assert(g.players[active[j] as int].hand is Some);
        let k = choose|k: int| 0 <= k < rs.len() && rs[k].0 == g.players[active[j] as int].id;
        let j2 = choose|j2: int|
            0 <= j2 < active.len() && g.players[active[j2] as int].id == rs[k].0
                && g.players[active[j2] as int].hand == Some(rs[k].1);
        if active[j2] != active[j] {
            let a = active[j2] as int;
            let b = active[j] as int;
            if a < b {
                assert(g.players[a].id != g.players[b].id);
            } else {
                assert(g.players[b].id != g.players[a].id);
            }
        }
    }
    let kmin = choose|j: int| 0 <= j < rs.len() && card_value(rs[j].1, cowboy) == low;
    let jm = choose|j: int|
        0 <= j < active.len() && g.players[active[j] as int].id == rs[kmin].0
            && g.players[active[j] as int].hand == Some(rs[kmin].1);
    let im = active[jm] as int;
    assert(shows_card(g, im));
    assert(card_value(g.players[im].hand.unwrap(), cowboy) == low);
    assert forall|i: int| 0 <= i < g.players.len() && #[trigger] shows_card(g, i) implies low
        <= card_value(g.players[i].hand.unwrap(), cowboy) by {
        let k = choose|k: int|
            0 <= k < rs.len() && rs[k].0 == g.players[i].id && rs[k].1 == g.players[i].hand.unwrap();
    }
    let post = g.showdown();
    crate::rules::lemma_showdown_distinct(g);
    assert forall|i: int| 0 <= i < g.players.len() implies (#[trigger] post.players[i]) == if shows_card(g, i)
        && card_value(g.players[i].hand.unwrap(), cowboy) == low {
        g.players[i].after_losing_life()
    } else {
        g.players[i]
    } by {
        assert(post.players == after_losses(g.players, losers));
        let is_loser = shows_card(g, i) && card_value(g.players[i].hand.unwrap(), cowboy) == low;
        if is_loser {
            let k = choose|k: int|
                0 <= k < rs.len() && rs[k].0 == g.players[i].id && rs[k].1 == g.players[i].hand.unwrap();
            assert(card_value(rs[k].1, cowboy) == low);
            assert(losers.contains(rs[k].0));
        } else if losers.contains(g.players[i].id) {
            let m = choose|m: int| 0 <= m < losers.len() && losers[m] == g.players[i].id;
            let j = choose|j: int|
                0 <= j < rs.len() && rs[j].0 == losers[m] && card_value(rs[j].1, cowboy) == low;
            let j2 = choose|j2: int|
                0 <= j2 < active.len() && g.players[active[j2] as int].id == rs[j].0
                    && g.players[active[j2] as int].hand == Some(rs[j].1);
            let a = active[j2] as int;
            if a != i {
                if a < i {
                    assert(g.players[a].id != g.players[i].id);
                } else {
                    assert(g.players[i].id != g.players[a].id);
                }
            }
            assert(false);
        }
    }
}

/// When every player of the order of play exempted, nobody loses a life.
pub proof fn law_everyone_exempted(g: GameModel)
    requires
        forall|k: int| 0 <= k < g.alive_order.len() ==> g.exempted.contains(#[trigger] g.alive_order[k]),
    ensures
        g.showdown().players == g.players,
        g.showdown().phase == PhaseModel::RoundEnd,
{
    lemma_active_seats(g.alive_order, g.exempted);
    let active = active_seats(g.alive_order, g.exempted);
    if active.len() > 0 {
        assert(g.alive_order.contains(active[0]));
    }
}

// ---------------------------------------------------------------------------
// Cowboy votes
// ---------------------------------------------------------------------------

/// Seat `i` ends up exempt: its player staged an exempt vote, or did not vote, plays this
/// round and holds an exemption token.
pub open spec fn exempts(players: Seq<Player>, order: Seq<usize>, votes: Seq<(u64, bool)>, i: int) -> bool {
    let id = players[i].id;
    ||| votes.contains((id, true))
    ||| !voted(votes, id) && order.contains(i as usize) && players[i].exemption_tokens > 0
}

/// What the final votes say of each seat.
proof fn lemma_final_votes_content(players: Seq<Player>, order: Seq<usize>, votes: Seq<(u64, bool)>)
    requires
        ids_distinct(players),
        players.len() <= usize::MAX,
        forall|k: int| 0 <= k < order.len() ==> (#[trigger] order[k]) < players.len(),
    ensures
        forall|i: int|
            0 <= i < players.len() ==> (final_votes(players, order, votes).contains(
                (#[trigger] players[i].id, true),
            ) <==> exempts(players, order, votes, i)),
        forall|i: int|
            0 <= i < players.len() ==> (voted(final_votes(players, order, votes), #[trigger] players[i].id)
                <==> (voted(votes, players[i].id) || order.contains(i as usize))),
    decreases order.len(),
{
    if order.len() > 0 {
        let prev = order.drop_last();
        lemma_final_votes_content(players, prev, votes);
        let s = order.last() as int;
        assert(order[order.len() - 1] == order.last());
        let pv = final_votes(players, prev, votes);
        let fv = final_votes(players, order, votes);
        assert forall|i: int| 0 <= i < players.len() implies (#[trigger] order.contains(i as usize) <==> (
        prev.contains(i as usize) || i == s)) by {
            if order.contains(i as usize) {
                let m = choose|m: int| 0 <= m < order.len() && order[m] == i as usize;
                if m < prev.len() {
                    assert(prev[m] == order[m]);
                }
            }
            if prev.contains(i as usize) {
                let m = choose|m: int| 0 <= m < prev.len() && prev[m] == i as usize;
                assert(order[m] == prev[m]);
            }
        }
        if !voted(pv, players[s].id) {
            let e = (players[s].id, players[s].exemption_tokens > 0);
            assert(fv == pv.push(e));
            assert forall|i: int| 0 <= i < players.len() implies (fv.contains((#[trigger] players[i].id, true))
                <==> exempts(players, order, votes, i)) by {
                if i != s {
                    if i < s {
                        assert(players[i].id != players[s].id);
                    } else {
                        assert(players[s].id != players[i].id);
                    }
                    if fv.contains((players[i].id, true)) {
                        let m = choose|m: int| 0 <= m < fv.len() && fv[m] == (players[i].id, true);
                        if m == pv.len() {
                            assert(fv[m] == e);
                        }
                        assert(pv[m] == fv[m]);
                    }
                    if pv.contains((players[i].id, true)) {
                        let m = choose|m: int| 0 <= m < pv.len() && pv[m] == (players[i].id, true);
                        assert(fv[m] == pv[m]);
                    }
                } else {
                    assert(fv[pv.len() as int] == e);
                    if pv.contains((players[i].id, true)) {
                        let m = choose|m: int| 0 <= m < pv.len() && pv[m] == (players[i].id, true);
                        assert(pv[m].0 == players[s].id);
                    }
                    if fv.contains((players[i].id, true)) && e.1 == false {
                        let m = choose|m: int| 0 <= m < fv.len() && fv[m] == (players[i].id, true);
                        assert(m < pv.len());
                        assert(pv[m] == fv[m]);
                        assert(pv[m].0 == players[s].id);
                    }
                    if votes.contains((players[i].id, true)) {
                        let m = choose|m: int| 0 <= m < votes.len() && votes[m] == (players[i].id, true);
                        assert(votes[m].0 == players[i].id);
                    }
                }
            }
            assert forall|i: int| 0 <= i < players.len() implies (voted(fv, #[trigger] players[i].id)
                <==> (voted(votes, players[i].id) || order.contains(i as usize))) by {
                if i != s {
                    if i < s {
                        assert(players[i].id != players[s].id);
                    } else {
                        assert(players[s].id != players[i].id);
                    }
                    if voted(fv, players[i].id) {
                        let m = choose|m: int| 0 <= m < fv.len() && fv[m].0 == players[i].id;
                        assert(m < pv.len());
                        assert(pv[m] == fv[m]);
                    }
                    if voted(pv, players[i].id) {
                        let m = choose|m: int| 0 <= m < pv.len() && pv[m].0 == players[i].id;
                        assert(fv[m] == pv[m]);
                    }
                } else {
                    assert(fv[pv.len() as int].0 == players[i].id);
                }
            }
        } else {
            assert(fv == pv);
            assert forall|i: int| 0 <= i < players.len() implies (fv.contains((#[trigger] players[i].id, true))
                <==> exempts(players, order, votes, i)) by {
                if i == s {
                    if !voted(votes, players[s].id) {
                        assert(prev.contains(s as usize));
                    }
                    if votes.contains((players[i].id, true)) {
                        let m = choose|m: int| 0 <= m < votes.len() && votes[m] == (players[i].id, true);
                        assert(votes[m].0 == players[i].id);
                    }
                }
            }
        }
    }
}

/// The exempt seats are those with an exempt final vote.
proof fn lemma_exempt_seats(players: Seq<Player>, fv: Seq<(u64, bool)>)
    requires
        ids_distinct(players),
        players.len() <= usize::MAX,
        forall|k: int| 0 <= k < fv.len() ==> has_player(players, (#[trigger] fv[k]).0),
    ensures
        forall|i: int|
            0 <= i < players.len() ==> (exempt_seats(players, fv).contains(i as usize) <==> fv.contains(
                (#[trigger] players[i].id, true),
            )),
    decreases fv.len(),
{
    if fv.len() > 0 {
        let prev = fv.drop_last();
        lemma_exempt_seats(players, prev);
        let es = exempt_seats(players, fv);
        let pe = exempt_seats(players, prev);
        let last = fv.last();
        assert(fv[fv.len() - 1] == last);
        let w = choose|w: int| 0 <= w < players.len() && players[w].id == last.0;
        lemma_index_of_distinct(players, w);
        assert forall|i: int| 0 <= i < players.len() implies (es.contains(i as usize) <==> fv.contains(
            (#[trigger] players[i].id, true),
        )) by {
            if last.1 {
                assert(es == pe.push(w as usize));
                if es.contains(i as usize) {
                    let m = choose|m: int| 0 <= m < es.len() && es[m] == i as usize;
                    if m < pe.len() {
                        assert(pe[m] == es[m]);
                        let q = choose|q: int| 0 <= q < prev.len() && prev[q] == (players[i].id, true);
                        assert(fv[q] == prev[q]);
                    } else {
                        assert(i == w);
                        assert(fv[fv.len() - 1] == (players[i].id, true));
                    }
                }
                if fv.contains((players[i].id, true)) {
                    let q = choose|q: int| 0 <= q < fv.len() && fv[q] == (players[i].id, true);
                    if q < prev.len() {
                        assert(prev[q] == fv[q]);
                        let m = choose|m: int| 0 <= m < pe.len() && pe[m] == i as usize;
                        assert(es[m] == pe[m]);
                    } else {
                        assert(players[w].id == players[i].id);
                        if i != w {
                            if i < w {
                                assert(players[i].id != players[w].id);
                            } else {
                                assert(players[w].id != players[i].id);
                            }
                        }
                        assert(es[pe.len() as int] == w as usize);
                    }
                }
            } else {
                assert(es == pe);
                if fv.contains((players[i].id, true)) {
                    let q = choose|q: int| 0 <= q < fv.len() && fv[q] == (players[i].id, true);
                    assert(q < prev.len());
                    assert(prev[q] == fv[q]);
                }
                if prev.contains((players[i].id, true)) {
                    let q = choose|q: int| 0 <= q < prev.len() && prev[q] == (players[i].id, true);
                    assert(fv[q] == prev[q]);
                }
            }
        }
    }
}

/// Resolving the cowboy vote at a table of distinct ids: a seat sits out the showdown
/// exactly when its player staged an exempt vote, or did not vote and holds an exemption
/// token; exactly those players spend one token; nobody else's tokens change.
pub proof fn law_cowboy_defaults(g: GameModel, votes: Seq<(u64, bool)>)
    requires
        g.can_resolve(votes),
        ids_distinct(g.players),
        g.players.len() <= usize::MAX,
    ensures
        ({
            let post = g.votes_applied(votes);
            forall|i: int|
                0 <= i < g.players.len() ==> {
                    &&& post.exempted.contains(i as usize) <==> (g.exempted.contains(i as usize)
                        || exempts(g.players, g.alive_order, votes, i))
                    &&& (#[trigger] post.players[i]).exemption_tokens == if exempts(
                        g.players,
                        g.alive_order,
                        votes,
                        i,
                    ) {
                        (g.players[i].exemption_tokens - 1) as u8
                    } else {
                        g.players[i].exemption_tokens
                    }
                    &&& post.players[i] == (Player {
                        exemption_tokens: post.players[i].exemption_tokens,
                        ..g.players[i]
                    })
                }
        }),
{
    let fv = final_votes(g.players, g.alive_order, votes);
    lemma_final_votes_content(g.players, g.alive_order, votes);
    crate::rules::lemma_final_votes(g.players, g.alive_order, votes);
    crate::rules::lemma_votes_distinct(g.players, fv);
    lemma_exempt_seats(g.players, fv);
    let post = g.votes_applied(votes);
    assert forall|i: int| 0 <= i < g.players.len() implies post.exempted.contains(i as usize) <==> (
    g.exempted.contains(i as usize) || exempts(g.players, g.alive_order, votes, i)) by {
        let es = exempt_seats(g.players, fv);
        assert(post.exempted == g.exempted + es);
        if post.exempted.contains(i as usize) {
            let m = choose|m: int| 0 <= m < post.exempted.len() && post.exempted[m] == i as usize;
            if m < g.exempted.len() {
                assert(g.exempted[m] == post.exempted[m]);
            } else {
                assert(es[m - g.exempted.len()] == post.exempted[m]);
            }
        }
        if g.exempted.contains(i as usize) {
            let m = choose|m: int| 0 <= m < g.exempted.len() && g.exempted[m] == i as usize;
            assert(post.exempted[m] == g.exempted[m]);
        }
        if es.contains(i as usize) {
            let m = choose|m: int| 0 <= m < es.len() && es[m] == i as usize;
            assert(post.exempted[g.exempted.len() + m] == es[m]);
        }
    }
}

// ---------------------------------------------------------------------------
// End of the game
// ---------------------------------------------------------------------------

/// A round that leaves exactly one player alive ends the game with that player as winner.
pub proof fn law_last_survivor_wins(g: GameModel, post: GameModel, r: Result<(), GameError>)
    requires
        g.phase is RoundEnd,
        alive_indices(cleared_hands(g.players)).len() == 1,
        g.next_round_step(post, r),
        g.players.len() <= usize::MAX,
    ensures
        r is Ok,
        post.phase == (PhaseModel::GameOver {
            winner: Some(g.players[alive_indices(cleared_hands(g.players))[0] as int].id),
        }),
        g.players[alive_indices(cleared_hands(g.players))[0] as int].alive(),
{
    let ps = cleared_hands(g.players);
    lemma_alive_indices(ps);
    let w = alive_indices(ps)[0] as int;
    assert(ps[w].id == g.players[w].id);
}

// ---------------------------------------------------------------------------
// Between rounds
// ---------------------------------------------------------------------------

/// Resurrection happens only when nobody survived the round: then every player comes back
/// alive with one life, the players of the last round keep their tokens and the others
/// have none; when somebody survived, only the hands are cleared.
pub proof fn law_resurrection(g: GameModel)
    requires
        g.players.len() <= usize::MAX,
    ensures
        ({
            let ps = cleared_hands(g.players);
            let post = g.between_rounds();
            &&& alive_indices(ps).len() == 0 ==> forall|i: int|
                0 <= i < g.players.len() ==> (#[trigger] post.players[i]).alive()
                    && post.players[i].lives == 1 && (if g.alive_order.contains(i as usize) {
                    post.players[i].exemption_tokens == g.players[i].exemption_tokens
                        && post.players[i].blocker_tokens == g.players[i].blocker_tokens
                } else {
                    post.players[i].exemption_tokens == 0 && post.players[i].blocker_tokens == 0
                })
            &&& alive_indices(ps).len() > 0 ==> post.players == ps
        }),
{
    let ps = cleared_hands(g.players);
    lemma_alive_indices(ps);
}

/// With a single life, nobody starts with an exemption token; everybody starts alive.
pub proof fn law_single_life_no_exemptions(
    players: Seq<Player>,
    lives: u8,
    blockers: u8,
    exemptions: u8,
)
    ensures
        lives == 1 ==> forall|i: int|
            0 <= i < players.len() ==> (#[trigger] equipped(players, lives, blockers, exemptions)[i]).exemption_tokens
                == 0,
        lives > 0 ==> forall|i: int|
            0 <= i < players.len() ==> (#[trigger] equipped(players, lives, blockers, exemptions)[i]).alive(),
{
}

// ---------------------------------------------------------------------------
// Actions
// ---------------------------------------------------------------------------

/// A refused action leaves the game as it was, apart from the emptied event log.
pub proof fn law_refusal_changes_nothing(
    g: GameModel,
    post: GameModel,
    id: u64,
    action: crate::game::Action,
    r: Result<(), GameError>,
)
    requires
        g.cleared_log().act_step(post, id, action, r),
        r is Err,
    ensures
        post == g.cleared_log(),
{
}

/// Staging a cowboy vote records the vote and nothing else: no event, no token spent.
pub proof fn law_vote_is_silent(g: GameModel, id: u64, exempt: bool)
    requires
        g.vote_step(id, exempt).1 is Ok,
    ensures
        g.vote_step(id, exempt).0.players == g.players,
        g.vote_step(id, exempt).0.events == g.events,
        g.vote_step(id, exempt).0.exempted == g.exempted,
        g.vote_step(id, exempt).0.phase matches PhaseModel::CowboyVote { votes } && g.phase matches PhaseModel::CowboyVote { votes: before } && votes == before.push((id, exempt)),
{
}


// ---------------------------------------------------------------------------
// Lobby

/// A player who joined can resume their session: unless another player of the lobby
/// already held the same token, reconnecting with the token given at joining finds exactly
/// that player.
pub proof fn law_resume_session(
    l: Lobby,
    post: Lobby,
    name: String,
    id: PlayerId,
    token: String,
)
    requires
        l.player_added(post, name, Ok((id, token))),
        forall|i: int| 0 <= i < l.players@.len() ==> l.players@[i].session_token@ != token@,
    ensures
        is_first_with_token(post.players@, token@, l.players@.len() as int),
        post.players@[l.players@.len() as int].id == id,
{
}


/// Hands stay hidden while a round is played: no seat's card is shown to the other
/// players before the round ends, and an exempted player's card is never shown.
pub proof fn law_hands_hidden(g: GameModel, i: int)
    ensures
        !(g.phase is RoundEnd || g.phase is GameOver) ==> public_view(g, i).revealed_card is None,
        g.exempted.contains(index_of(g.players, g.players[i].id) as usize) ==> public_view(
            g,
            i,
        ).revealed_card is None,
{
}


// ---------------------------------------------------------------------------
// Tokens
// ---------------------------------------------------------------------------

/// From `a` to `b`, the same players, none of them with more tokens of either kind.
pub open spec fn no_tokens_gained(a: Seq<Player>, b: Seq<Player>) -> bool {
    &&& b.len() == a.len()
    &&& forall|i: int|
        0 <= i < a.len() ==> (#[trigger] b[i]).blocker_tokens <= a[i].blocker_tokens
            && b[i].exemption_tokens <= a[i].exemption_tokens
}

/// From `a` to `b`, every player keeps their blocker tokens.
pub open spec fn same_blockers(a: Seq<Player>, b: Seq<Player>) -> bool {
    &&& b.len() == a.len()
    &&& forall|i: int| 0 <= i < a.len() ==> (#[trigger] b[i]).blocker_tokens == a[i].blocker_tokens
}

/// From `a` to `b`, every player keeps their exemption tokens.
pub open spec fn same_exemptions(a: Seq<Player>, b: Seq<Player>) -> bool {
    &&& b.len() == a.len()
    &&& forall|i: int|
        0 <= i < a.len() ==> (#[trigger] b[i]).exemption_tokens == a[i].exemption_tokens
}

/// The showdown takes lives, never tokens.
proof fn lemma_showdown_tokens(h: GameModel)
    requires
        h.order_in_range(),
    ensures
        same_blockers(h.players, h.showdown().players),
        same_exemptions(h.players, h.showdown().players),
{
    let post = h.showdown();
    crate::rules::lemma_showdown_frame(h);
    assert forall|i: int| 0 <= i < h.players.len() implies (#[trigger] post.players[i]).blocker_tokens
        == h.players[i].blocker_tokens && post.players[i].exemption_tokens
        == h.players[i].exemption_tokens by {}
}

/// Tokens are only ever spent once a game has started: no action but starting the game
/// gives anybody a token. Blocker tokens change only by a block or when a new round
/// brings eliminated players back (with none); exemption tokens only when a cowboy vote
/// is resolved or, likewise, on a resurrection.
pub proof fn law_tokens_never_grow(
    g: GameModel,
    post: GameModel,
    id: PlayerId,
    action: crate::game::Action,
    r: Result<(), GameError>,
)
    requires
        g.can_act(id, action),
        g.cleared_log().act_step(post, id, action, r),
        !(action is StartGame),
        g.players.len() <= usize::MAX,
    ensures
        no_tokens_gained(g.players, post.players),
        !(action is Block) && !(action is NextRound) ==> same_blockers(g.players, post.players),
        !(action is ResolveCowboyVote) && !(action is NextRound) ==> same_exemptions(
            g.players,
            post.players,
        ),
{
    let c = g.cleared_log();
    if r is Err {
        assert(post.players == g.players);
        return;
    }
    match action {
        crate::game::Action::DealerPass => {
            lemma_showdown_tokens(c.with_event(EventModel::DealerPassed { dealer_id: id }));
        },
        crate::game::Action::TakeOffTop => {
            let drawn = c.after_draw(id);
            assert forall|i: int| 0 <= i < g.players.len() implies (#[trigger] drawn.players[i]).blocker_tokens
                == g.players[i].blocker_tokens && drawn.players[i].exemption_tokens
                == g.players[i].exemption_tokens by {}
            if !c.deck.last().is_king() {
                lemma_showdown_tokens(drawn);
            }
        },
        crate::game::Action::Block => {
            if let PhaseModel::WaitingForBlock { trader_idx, target_idx } = c.phase {
                let t = c.alive_order[target_idx as int] as int;
                assert forall|i: int| 0 <= i < g.players.len() implies (#[trigger] post.players[i]).blocker_tokens
                    <= g.players[i].blocker_tokens && post.players[i].exemption_tokens
                    == g.players[i].exemption_tokens by {
                    if i == t {
                    }
                }
            }
        },
        crate::game::Action::AcceptTrade => {
            assert forall|i: int| 0 <= i < g.players.len() implies (#[trigger] post.players[i]).blocker_tokens
                == g.players[i].blocker_tokens && post.players[i].exemption_tokens
                == g.players[i].exemption_tokens by {}
        },
        crate::game::Action::Trade => {
            assert forall|i: int| 0 <= i < g.players.len() implies (#[trigger] post.players[i]).blocker_tokens
                == g.players[i].blocker_tokens && post.players[i].exemption_tokens
                == g.players[i].exemption_tokens by {}
        },
        crate::game::Action::ResolveCowboyVote => {
            if let PhaseModel::CowboyVote { votes } = c.phase {
                let h = c.votes_applied(votes);
                let fv = final_votes(c.players, c.alive_order, votes);
                crate::rules::lemma_final_votes(c.players, c.alive_order, votes);
                crate::rules::lemma_votes_frame(c.players, fv);
                lemma_showdown_tokens(h);
                assert forall|i: int| 0 <= i < g.players.len() implies (#[trigger] h.players[i]).blocker_tokens
                    == g.players[i].blocker_tokens && h.players[i].exemption_tokens
                    <= g.players[i].exemption_tokens by {
                    assert(h.players[i] == crate::rules::votes_taken(c.players, fv)[i]);
                }
                assert forall|i: int| 0 <= i < g.players.len() implies (#[trigger] post.players[i]).blocker_tokens
                    <= g.players[i].blocker_tokens && post.players[i].exemption_tokens
                    <= g.players[i].exemption_tokens by {
                    assert(post.players[i].blocker_tokens == h.players[i].blocker_tokens);
                    assert(post.players[i].exemption_tokens == h.players[i].exemption_tokens);
                }
            }
        },
        crate::game::Action::NextRound => {
            if c.phase is RoundEnd {
                let ps = cleared_hands(c.players);
                assert(no_tokens_gained(g.players, ps));
                if alive_indices(ps).len() != 1 {
                    let b = c.between_rounds();
                    assert(no_tokens_gained(g.players, b.players)) by {
                        assert forall|i: int| 0 <= i < g.players.len() implies (#[trigger] b.players[i]).blocker_tokens
                            <= g.players[i].blocker_tokens && b.players[i].exemption_tokens
                            <= g.players[i].exemption_tokens by {
                            assert(ps[i].blocker_tokens == g.players[i].blocker_tokens);
                        }
                    }
                    assert forall|i: int| 0 <= i < g.players.len() implies (#[trigger] post.players[i]).blocker_tokens
                        <= g.players[i].blocker_tokens && post.players[i].exemption_tokens
                        <= g.players[i].exemption_tokens by {
                        assert(b.players[i].blocker_tokens <= g.players[i].blocker_tokens);
                        assert(post.players[i].blocker_tokens == b.players[i].blocker_tokens);
                    }
                }
            }
        },
        _ => {},
    }
}


/// What a player sees of the game during a round does not depend on the other players'
/// cards: two games that differ only in the hands of other players show that player the
/// same view.
pub proof fn law_view_ignores_other_hands(g1: GameModel, g2: GameModel, p: PlayerId)
    requires
        !(g1.phase is RoundEnd || g1.phase is GameOver),
        g1.can_name_actor(),
        g1.dealer_idx < g1.players.len(),
        g2 == (GameModel { players: g2.players, ..g1 }),
        g2.players.len() == g1.players.len(),
        forall|i: int|
            0 <= i < g1.players.len() ==> (#[trigger] g2.players[i]) == (Player {
                hand: g2.players[i].hand,
                ..g1.players[i]
            }),
        forall|i: int|
            0 <= i < g1.players.len() && g1.players[i].id == p ==> (#[trigger] g2.players[i]).hand
                == g1.players[i].hand,
    ensures
        has_player(g1.players, p) == has_player(g2.players, p),
        has_player(g1.players, p) ==> forall|s: crate::lobby::PlayerGameState|
            crate::lobby::game_view(s, g1, p) <==> crate::lobby::game_view(s, g2, p),
{
    assert forall|i: int| 0 <= i < g1.players.len() implies #[trigger] g1.players[i].id
        == g2.players[i].id by {
        assert(g2.players[i] == (Player { hand: g2.players[i].hand, ..g1.players[i] }));
    }
    if has_player(g2.players, p) {
        let w = choose|i: int| 0 <= i < g2.players.len() && g2.players[i].id == p;
        assert(g1.players[w].id == p);
    }
    if has_player(g1.players, p) {
        lemma_same_ids_same_index(g1.players, g2.players, p);
        let k = index_of(g1.players, p);
        assert(g2.players[k] == g1.players[k]) by {
            assert(g2.players[k] == (Player { hand: g2.players[k].hand, ..g1.players[k] }));
        }
        assert forall|i: int| 0 <= i < g1.players.len() implies #[trigger] public_view(g1, i)
            == public_view(g2, i) by {
            let q = g1.players[i].id;
            assert(has_player(g1.players, q));
            lemma_same_ids_same_index(g1.players, g2.players, q);
            assert(g2.players[i] == (Player { hand: g2.players[i].hand, ..g1.players[i] }));
        }
        assert(Seq::new(g1.players.len(), |i: int| public_view(g1, i)) =~= Seq::new(
            g2.players.len(),
            |i: int| public_view(g2, i),
        ));
        assert forall|k: int| 0 <= k < g1.alive_order.len() implies #[trigger] g1.seat_id(k)
            == g2.seat_id(k) by {
            assert(g1.alive_order[k] < g1.players.len());
            assert(g1.players[g1.alive_order[k] as int].id == g2.players[g1.alive_order[k] as int].id);
        }
        assert(g1.actor() == g2.actor()) by {
            match g1.phase {
                PhaseModel::NormalTurn { current_idx } => {
                    assert(g1.seat_id(current_idx as int) == g2.seat_id(current_idx as int));
                },
                PhaseModel::WaitingForBlock { target_idx, .. } => {
                    assert(g1.seat_id(target_idx as int) == g2.seat_id(target_idx as int));
                },
                PhaseModel::DealerTurn => {
                    let l = g1.alive_order.len() - 1;
                    assert(g1.seat_id(l) == g2.seat_id(l));
                },
                _ => {},
            }
        }
        let d = g1.dealer_idx as int;
        assert(g1.players[d].id == g2.players[d].id);
        assert(index_of(g2.players, p) == k);
    }
}


// ---------------------------------------------------------------------------
// Turns, deals, starts, timers and results
// ---------------------------------------------------------------------------

/// A forced trade moves the turn on exactly as a pass does: after the player at position
/// `ci` of the order trades with a target who holds no blocker token, the turn is the
/// target's (position `ci + 1`), or the dealer's when the target is the dealer; nobody is
/// skipped.
pub proof fn law_forced_trade_passes_turn(g: GameModel, ci: usize, id: PlayerId)
    requires
        g.phase == (PhaseModel::NormalTurn { current_idx: ci }),
        g.order_in_range(),
        ci + 1 < g.alive_order.len(),
        g.seat_id(ci as int) == id,
        g.players[g.alive_order[ci + 1] as int].blocker_tokens == 0,
    ensures
        g.trade_step(id).1 is Ok,
        g.trade_step(id).0.phase == g.pass_step(id).0.phase,
        ci + 1 < g.alive_order.len() - 1 ==> g.trade_step(id).0.phase == (PhaseModel::NormalTurn {
            current_idx: (ci + 1) as usize,
        }) && g.trade_step(id).0.events.last() == (EventModel::NormalTurnStarted {
            player_id: g.seat_id(ci + 1),
        }),
        ci + 1 == g.alive_order.len() - 1 ==> g.trade_step(id).0.phase == PhaseModel::DealerTurn,
{
    let target = g.alive_order[ci + 1] as int;
    let proposed = g.with_event(EventModel::TradeProposed { from_id: id, to_id: g.players[target].id });
    let t = proposed.traded(ci as int, ci + 1);
    assert(t.players[target].id == g.players[target].id);
    assert(t.seat_id(ci + 1) == g.seat_id(ci + 1));
}

/// Answering a proposed trade moves the turn on to the target: whether the target accepts
/// or blocks, the turn is position `ti + 1`'s (the target's), or the dealer's when the
/// target is the dealer; the trader does not play again and nobody is skipped.
pub proof fn law_answered_trade_passes_turn(g: GameModel, ti: usize, id: PlayerId)
    requires
        g.phase == (PhaseModel::WaitingForBlock { trader_idx: ti, target_idx: (ti + 1) as usize }),
        g.order_in_range(),
        ti + 1 < g.alive_order.len(),
        g.alive_order.len() <= usize::MAX,
        g.seat_id(ti + 1) == id,
    ensures
        g.accept_step(id).1 is Ok,
        ti + 1 < g.alive_order.len() - 1 ==> g.accept_step(id).0.phase == (PhaseModel::NormalTurn {
            current_idx: (ti + 1) as usize,
        }),
        ti + 1 == g.alive_order.len() - 1 ==> g.accept_step(id).0.phase == PhaseModel::DealerTurn,
        g.block_step(id).1 is Ok ==> g.block_step(id).0.phase == g.accept_step(id).0.phase,
{
}

/// Whether some player of `seats` holds a king.
proof fn lemma_king_seats_sound(players: Seq<Player>, seats: Seq<usize>)
    requires
        king_seats(players, seats).len() > 0,
    ensures
        exists|k: int| 0 <= k < seats.len() && holds_king(#[trigger] players[seats[k] as int]),
    decreases seats.len(),
{
    let prev = seats.drop_last();
    if king_seats(players, prev).len() > 0 {
        lemma_king_seats_sound(players, prev);
        let k = choose|k: int| 0 <= k < prev.len() && holds_king(#[trigger] players[prev[k] as int]);
        assert(seats[k] == prev[k]);
    } else {
        let n = seats.len() - 1;
        assert(seats[n] == seats.last());
        assert(holds_king(players[seats[n] as int]));
    }
}

/// A round starts with the player left of the dealer: when no king was dealt to the order
/// of play (of at least two players), the first turn is position 0's, in a normal round;
/// when a king was dealt, a cowboy vote opens.
pub proof fn law_round_starts_left_of_dealer(m: GameModel, post: GameModel)
    requires
        m.round_started(post),
        post.alive_order.len() >= 2,
    ensures
        (forall|k: int|
            0 <= k < post.alive_order.len() ==> !holds_king(#[trigger] post.players[post.alive_order[k] as int]))
            ==> post.phase == (PhaseModel::NormalTurn { current_idx: 0 }) && !post.is_cowboy_round
            && post.events.last() == (EventModel::NormalTurnStarted {
            player_id: post.players[post.alive_order[0] as int].id,
        }),
        (exists|k: int|
            0 <= k < post.alive_order.len() && holds_king(#[trigger] post.players[post.alive_order[k] as int]))
            ==> post.phase is CowboyVote && post.is_cowboy_round,
{
    let d = m.dealt(post.players, post.deck);
    assert(d.players == post.players && d.alive_order == post.alive_order);
    let kings = king_seats(d.players, d.alive_order);
    if kings.len() > 0 {
        lemma_king_seats_sound(d.players, d.alive_order);
    } else {
        crate::shape::lemma_king_seats_complete(d.players, d.alive_order);
        assert forall|k: int| 0 <= k < post.alive_order.len() implies !holds_king(
            #[trigger] post.players[post.alive_order[k] as int],
        ) by {
            if holds_king(post.players[post.alive_order[k] as int]) {
                assert(kings.contains(d.alive_order[k]));
            }
        }
    }
}

/// A game started from the lobby gives every seated player the chosen lives and blocker
/// tokens, and the chosen exemption tokens unless the game is played with a single life,
/// in which case none.
pub proof fn law_start_equips_players(
    l: Lobby,
    post: Lobby,
    host_id: PlayerId,
    lives: u8,
    blockers: u8,
    exemptions: u8,
)
    requires
        l.game_started(post, host_id, lives, blockers, exemptions, Ok(())),
    ensures
        post.game matches Some(g) && g@.players.len() == seated(l.players@).len() && forall|i: int|
            0 <= i < g@.players.len() ==> {
                &&& (#[trigger] g@.players[i]).lives == lives
                &&& g@.players[i].blocker_tokens == blockers
                &&& g@.players[i].exemption_tokens == if lives == 1 {
                    0u8
                } else {
                    exemptions
                }
            },
{
    let seats = seated(l.players@);
    let g = post.game->0;
    let eq = equipped(seats, lives, blockers, exemptions);
    assert forall|i: int| 0 <= i < g@.players.len() implies {
        &&& (#[trigger] g@.players[i]).lives == lives
        &&& g@.players[i].blocker_tokens == blockers
        &&& g@.players[i].exemption_tokens == if lives == 1 {
            0u8
        } else {
            exemptions
        }
    } by {
        assert(g@.players[i] == (Player { hand: g@.players[i].hand, ..eq[i] }));
    }
}

/// The turn timer's default moves never spend a token: whatever the default move of the
/// phase is (pass a turn, accept a proposed trade, keep the dealer's card), making it for
/// the player who is to act leaves every player's blocker and exemption tokens as they
/// were; in particular a silent target of a proposed trade accepts it and keeps their
/// blocker.
pub proof fn law_timer_spends_nothing(
    g: GameModel,
    post: GameModel,
    id: PlayerId,
    action: crate::game::Action,
    r: Result<(), GameError>,
)
    requires
        crate::session::default_move(g.phase) == Some(action),
        g.can_act(id, action),
        g.cleared_log().act_step(post, id, action, r),
        g.players.len() <= usize::MAX,
    ensures
        same_blockers(g.players, post.players),
        same_exemptions(g.players, post.players),
        g.phase is WaitingForBlock ==> action == crate::game::Action::AcceptTrade,
{
    law_tokens_never_grow(g, post, id, action, r);
}

/// The recorded winner is the winning player's name: the name of the first lobby player
/// with the winner's id, or "Unknown" when no lobby player has it.
pub proof fn law_winner_named(l: Lobby, post: Lobby, winner_id: PlayerId)
    requires
        l.result_recorded(post, winner_id),
    ensures
        forall|i: int|
            0 <= i < l.players@.len() && l.players@[i].id == winner_id && (forall|j: int|
                0 <= j < i ==> l.players@[j].id != winner_id) ==> post.game_history@.last().winner_name
                == #[trigger] l.players@[i].name,
        (forall|i: int| 0 <= i < l.players@.len() ==> l.players@[i].id != winner_id)
            ==> post.game_history@.last().winner_name@ == "Unknown"@,
{
    assert forall|i: int|
        0 <= i < l.players@.len() && l.players@[i].id == winner_id && (forall|j: int|
            0 <= j < i ==> l.players@[j].id != winner_id) implies post.game_history@.last().winner_name
        == #[trigger] l.players@[i].name by {
        assert(is_first_lobby_id(l.players@, winner_id, i));
        let k = choose|k: int|
            is_first_lobby_id(l.players@, winner_id, k) && post.game_history@.last().winner_name
                == l.players@[k].name;
        if k < i {
            assert(l.players@[k].id == winner_id);
        } else if i < k {
            assert(l.players@[i].id == winner_id);
        }
    }
}

} // verus!
