use vstd::prelude::*;

use crate::card::{Card, cowboy_rank_value, fresh_deck, normal_rank_value};
use crate::game::{Action, CowboySource, EventModel, GameError, GameModel, PhaseModel};
use crate::player::{Player, PlayerId};

verus! {

// ---------------------------------------------------------------------------
// Finding players
// ---------------------------------------------------------------------------

/// Some player has this id.
pub open spec fn has_player(players: Seq<Player>, id: PlayerId) -> bool {
    exists|i: int| 0 <= i < players.len() && players[i].id == id
}

/// `i` is the first seat whose player has this id.
pub open spec fn is_first_with_id(players: Seq<Player>, id: PlayerId, i: int) -> bool {
    &&& 0 <= i < players.len()
    &&& players[i].id == id
    &&& forall|j: int| 0 <= j < i ==> players[j].id != id
}

/// The first seat whose player has this id (meaningful when `has_player`).
pub open spec fn index_of(players: Seq<Player>, id: PlayerId) -> int {
    choose|i: int| is_first_with_id(players, id, i)
}

/// No two players share an id.
pub open spec fn ids_distinct(players: Seq<Player>) -> bool {
    forall|i: int, j: int| 0 <= i < j < players.len() ==> players[i].id != players[j].id
}

// ---------------------------------------------------------------------------
// Seating
// ---------------------------------------------------------------------------

/// The alive players among the `k` seats that follow the dealer clockwise, in that order.
pub open spec fn alive_seats(players: Seq<Player>, dealer: int, k: nat) -> Seq<usize>
    decreases k,
{
    if k == 0 {
        seq![]
    } else {
        let prev = alive_seats(players, dealer, (k - 1) as nat);
        let seat = (dealer + k) % (players.len() as int);
        if players[seat].alive() {
            prev.push(seat as usize)
        } else {
            prev
        }
    }
}

/// The order of play for a round: every alive player once, starting left of the
/// dealer and going round the table; the dealer, if alive, comes last.
pub open spec fn round_order(players: Seq<Player>, dealer: int) -> Seq<usize> {
    alive_seats(players, dealer, players.len())
}

/// The seats of alive players, in seat order.
pub open spec fn alive_indices(players: Seq<Player>) -> Seq<usize>
    decreases players.len(),
{
    if players.len() == 0 {
        seq![]
    } else {
        let prev = alive_indices(players.drop_last());
        if players.last().alive() {
            prev.push((players.len() - 1) as usize)
        } else {
            prev
        }
    }
}

/// `k` steps clockwise from `d` is the first alive seat after `d`.
pub open spec fn is_next_alive_step(players: Seq<Player>, d: int, k: int) -> bool {
    let n = players.len() as int;
    &&& 1 <= k <= n
    &&& players[(d + k) % n].alive()
    &&& forall|j: int| 1 <= j < k ==> !(#[trigger] players[(d + j) % n]).alive()
}

/// The first alive seat clockwise after seat `d` (meaningful when someone is alive).
pub open spec fn next_alive_seat(players: Seq<Player>, d: int) -> int {
    let k = choose|k: int| is_next_alive_step(players, d, k);
    (d + k) % (players.len() as int)
}

// ---------------------------------------------------------------------------
// Dealing
// ---------------------------------------------------------------------------

/// The cards held by the players of `seats`, in seat order (holes read as arbitrary cards).
pub open spec fn held_cards(players: Seq<Player>, seats: Seq<usize>) -> Seq<Card> {
    seats.map_values(|i: usize| players[i as int].hand.unwrap())
}

/// A card-dealt event for each seat of the order.
pub open spec fn dealt_events(players: Seq<Player>, seats: Seq<usize>) -> Seq<EventModel> {
    seats.map_values(|i: usize| EventModel::CardDealt { player_id: players[i as int].id })
}

/// The seats, among `seats`, whose player holds a king.
pub open spec fn king_seats(players: Seq<Player>, seats: Seq<usize>) -> Seq<usize>
    decreases seats.len(),
{
    if seats.len() == 0 {
        seq![]
    } else {
        let prev = king_seats(players, seats.drop_last());
        let i = seats.last();
        if players[i as int].hand matches Some(c) && c.is_king() {
            prev.push(i)
        } else {
            prev
        }
    }
}

/// The ids of the players of `seats`.
pub open spec fn seat_ids(players: Seq<Player>, seats: Seq<usize>) -> Seq<PlayerId> {
    seats.map_values(|i: usize| players[i as int].id)
}

/// `players` and `deck` are what a deal from a freshly shuffled deck leaves: each player
/// of `order` got one card off the top, in order, and nobody else's seat changed.
pub open spec fn is_deal(
    before: Seq<Player>,
    order: Seq<usize>,
    players: Seq<Player>,
    deck: Seq<Card>,
) -> bool {
    &&& players.len() == before.len()
    &&& forall|i: int|
        0 <= i < before.len() && !order.contains(i as usize) ==> players[i] == before[i]
    &&& forall|i: int|
        0 <= i < before.len() && order.contains(i as usize) ==> (#[trigger] players[i]).hand is Some
            && players[i] == (Player { hand: players[i].hand, ..before[i] })
    &&& deck.len() + order.len() == 52
    &&& (deck + held_cards(players, order).reverse()).to_multiset() == fresh_deck().to_multiset()
}

// ---------------------------------------------------------------------------
// Showdown
// ---------------------------------------------------------------------------

/// The seats of `order` that did not exempt.
pub open spec fn active_seats(order: Seq<usize>, exempted: Seq<usize>) -> Seq<usize>
    decreases order.len(),
{
    if order.len() == 0 {
        seq![]
    } else {
        let prev = active_seats(order.drop_last(), exempted);
        if exempted.contains(order.last()) {
            prev
        } else {
            prev.push(order.last())
        }
    }
}

/// The cards shown by the players of `seats` who hold one, with their ids.
pub open spec fn shown_cards(players: Seq<Player>, seats: Seq<usize>) -> Seq<(PlayerId, Card)>
    decreases seats.len(),
{
    if seats.len() == 0 {
        seq![]
    } else {
        let prev = shown_cards(players, seats.drop_last());
        let p = players[seats.last() as int];
        match p.hand {
            Some(c) => prev.push((p.id, c)),
            None => prev,
        }
    }
}

/// The value that decides a showdown: cowboy values in a cowboy round, normal values otherwise.
pub open spec fn card_value(c: Card, cowboy: bool) -> int {
    if cowboy {
        cowboy_rank_value(c.rank) as int
    } else {
        normal_rank_value(c.rank).unwrap() as int
    }
}

/// The lowest value among the shown cards (meaningful when some card is shown).
pub open spec fn lowest_value(rs: Seq<(PlayerId, Card)>, cowboy: bool) -> int
    decreases rs.len(),
{
    if rs.len() <= 1 {
        card_value(rs[0].1, cowboy)
    } else {
        let prev = lowest_value(rs.drop_last(), cowboy);
        let v = card_value(rs.last().1, cowboy);
        if v < prev {
            v
        } else {
            prev
        }
    }
}

/// The ids of the shown cards whose value is `low`, in order.
pub open spec fn loser_ids(rs: Seq<(PlayerId, Card)>, cowboy: bool, low: int) -> Seq<PlayerId>
    decreases rs.len(),
{
    if rs.len() == 0 {
        seq![]
    } else {
        let prev = loser_ids(rs.drop_last(), cowboy, low);
        if card_value(rs.last().1, cowboy) == low {
            prev.push(rs.last().0)
        } else {
            prev
        }
    }
}

/// Every player whose id is among `losers` loses one life.
pub open spec fn after_losses(players: Seq<Player>, losers: Seq<PlayerId>) -> Seq<Player> {
    players.map_values(
        |p: Player|
            if losers.contains(p.id) {
                p.after_losing_life()
            } else {
                p
            },
    )
}

/// An elimination event for each loser left without a life, in order.
pub open spec fn elimination_events(players: Seq<Player>, losers: Seq<PlayerId>) -> Seq<
    EventModel,
>
    decreases losers.len(),
{
    if losers.len() == 0 {
        seq![]
    } else {
        let prev = elimination_events(players, losers.drop_last());
        let id = losers.last();
        if !players[index_of(players, id)].alive() {
            prev.push(EventModel::PlayerEliminated { player_id: id })
        } else {
            prev
        }
    }
}

// ---------------------------------------------------------------------------
// Cowboy votes
// ---------------------------------------------------------------------------

/// Some vote of `votes` comes from this id.
pub open spec fn voted(votes: Seq<(PlayerId, bool)>, id: PlayerId) -> bool {
    exists|k: int| 0 <= k < votes.len() && votes[k].0 == id
}

/// The staged votes followed by a default vote for every player of `order` who has
/// not voted: exempt exactly when that player holds an exemption token.
pub open spec fn final_votes(
    players: Seq<Player>,
    order: Seq<usize>,
    votes: Seq<(PlayerId, bool)>,
) -> Seq<(PlayerId, bool)>
    decreases order.len(),
{
    if order.len() == 0 {
        votes
    } else {
        let prev = final_votes(players, order.drop_last(), votes);
        let p = players[order.last() as int];
        if voted(prev, p.id) {
            prev
        } else {
            prev.push((p.id, p.exemption_tokens > 0))
        }
    }
}

/// Every player with an exempt vote spends one exemption token, all at once (what taking
/// the votes in turn comes to at a table of distinct ids).
pub open spec fn after_votes(players: Seq<Player>, votes: Seq<(PlayerId, bool)>) -> Seq<Player> {
    players.map_values(
        |p: Player|
            if votes.contains((p.id, true)) {
                Player { exemption_tokens: (p.exemption_tokens - 1) as u8, ..p }
            } else {
                p
            },
    )
}

/// The votes taken in turn: for each exempt vote, the first seat of the voter's id spends
/// one exemption token.
pub open spec fn votes_taken(players: Seq<Player>, votes: Seq<(PlayerId, bool)>) -> Seq<Player>
    decreases votes.len(),
{
    if votes.len() == 0 {
        players
    } else {
        let prev = votes_taken(players, votes.drop_last());
        let v = votes.last();
        if v.1 {
            let i = index_of(players, v.0);
            prev.update(i, Player { exemption_tokens: (prev[i].exemption_tokens - 1) as u8, ..prev[i] })
        } else {
            prev
        }
    }
}

/// The seats of the players with an exempt vote, in vote order.
pub open spec fn exempt_seats(players: Seq<Player>, votes: Seq<(PlayerId, bool)>) -> Seq<usize>
    decreases votes.len(),
{
    if votes.len() == 0 {
        seq![]
    } else {
        let prev = exempt_seats(players, votes.drop_last());
        if votes.last().1 {
            prev.push(index_of(players, votes.last().0) as usize)
        } else {
            prev
        }
    }
}

/// An exempted or stayed-in event for each vote, in order.
pub open spec fn vote_events(votes: Seq<(PlayerId, bool)>) -> Seq<EventModel> {
    votes.map_values(
        |v: (PlayerId, bool)|
            if v.1 {
                EventModel::PlayerExempted { player_id: v.0 }
            } else {
                EventModel::PlayerStayedIn { player_id: v.0 }
            },
    )
}

// ---------------------------------------------------------------------------
// Next round
// ---------------------------------------------------------------------------

/// Every hand emptied.
pub open spec fn cleared_hands(players: Seq<Player>) -> Seq<Player> {
    players.map_values(|p: Player| Player { hand: None, ..p })
}

/// Resurrection: the players of the last round's order come back with one life and keep
/// their tokens; everybody else comes back with one life and no tokens.
pub open spec fn revived(players: Seq<Player>, order: Seq<usize>) -> Seq<Player> {
    Seq::new(
        players.len(),
        |i: int|
            if order.contains(i as usize) {
                Player { lives: 1, is_eliminated: false, ..players[i] }
            } else {
                players[i].resurrected()
            },
    )
}

/// The players at the start of a game: everybody gets the chosen lives and tokens, except
/// that with a single life nobody gets exemption tokens.
pub open spec fn equipped(players: Seq<Player>, lives: u8, blockers: u8, exemptions: u8) -> Seq<
    Player,
> {
    let ex = if lives == 1 {
        0u8
    } else {
        exemptions
    };
    players.map_values(
        |p: Player|
            Player {
                lives,
                blocker_tokens: blockers,
                exemption_tokens: ex,
                is_eliminated: false,
                ..p
            },
    )
}

/// The two seats' hands exchanged.
pub open spec fn swap_hands(players: Seq<Player>, i: int, j: int) -> Seq<Player> {
    let hi = players[i].hand;
    let hj = players[j].hand;
    players.update(i, Player { hand: hj, ..players[i] }).update(
        j,
        Player { hand: hi, ..players[j] },
    )
}

// ---------------------------------------------------------------------------
// Lemmas
// ---------------------------------------------------------------------------

/// `x % n` for `0 <= x < 2n`.
pub proof fn lemma_wrap(x: int, n: int)
    requires
        0 < n,
        0 <= x < 2 * n,
    ensures
        x < n ==> x % n == x,
        x >= n ==> x % n == x - n,
{
    if x < n {
        vstd::arithmetic::div_mod::lemma_small_mod(x as nat, n as nat);
    } else {
        vstd::arithmetic::div_mod::lemma_small_mod((x - n) as nat, n as nat);
        vstd::arithmetic::div_mod::lemma_mod_add_multiples_vanish(x - n, n);
    }
}

/// The seat `j` steps clockwise from seat `d` at a table of `n`.
pub open spec fn seat_after(d: int, j: int, n: int) -> int {
    (d + j) % n
}

/// What the alive seats after the dealer are: alive seats, each once, each one of the
/// `k` seats after the dealer, every alive one of them included, at most `k` of them and
/// exactly `k` when everybody is alive.
pub proof fn lemma_alive_seats(players: Seq<Player>, d: int, k: nat)
    requires
        0 <= d < players.len(),
        k <= players.len(),
        players.len() <= usize::MAX,
    ensures
        ({
            let s = alive_seats(players, d, k);
            let n = players.len() as int;
            &&& forall|m: int|
                0 <= m < s.len() ==> (#[trigger] s[m]) < n && players[s[m] as int].alive()
                    && exists|j: int| 1 <= j <= k && s[m] as int == #[trigger] seat_after(d, j, n)
            &&& s.no_duplicates()
            &&& forall|j: int|
                1 <= j <= k && (#[trigger] players[(d + j) % n]).alive() ==> s.contains(
                    ((d + j) % n) as usize,
                )
            &&& s.len() <= k
            &&& (forall|i: int| 0 <= i < n ==> (#[trigger] players[i]).alive()) ==> s.len() == k
        }),
    decreases k,
{
    let n = players.len() as int;
    if k > 0 {
        let prev = alive_seats(players, d, (k - 1) as nat);
        lemma_alive_seats(players, d, (k - 1) as nat);
        let seat = (d + k) % n;
        lemma_wrap(d + k, n);
        let s = alive_seats(players, d, k);
        assert forall|m: int| 0 <= m < prev.len() implies (#[trigger] prev[m]) as int != seat by {
            let j = choose|j: int| 1 <= j <= k - 1 && prev[m] as int == seat_after(d, j, n);
            lemma_wrap(d + j, n);
        }
        assert forall|m: int| 0 <= m < s.len() implies (#[trigger] s[m]) < n && players[s[m] as int].alive()
            && exists|j: int| 1 <= j <= k && s[m] as int == #[trigger] seat_after(d, j, n) by {
            if m < prev.len() {
                assert(s[m] == prev[m]);
                let j = choose|j: int| 1 <= j <= k - 1 && prev[m] as int == seat_after(d, j, n);
                assert(1 <= j <= k && s[m] as int == seat_after(d, j, n));
            } else {
                assert(1 <= k <= k && s[m] as int == seat_after(d, k as int, n));
            }
        }
        assert forall|j: int|
            1 <= j <= k && (#[trigger] players[(d + j) % n]).alive() implies s.contains(
            ((d + j) % n) as usize,
        ) by {
            if j < k {
                let m = choose|m: int| 0 <= m < prev.len() && prev[m] == ((d + j) % n) as usize;
                assert(s[m] == prev[m]);
            } else {
                assert(s[s.len() - 1] == seat as usize);
            }
        }
    }
}

/// Every seat is some number of steps, between 1 and n, clockwise from the dealer.
pub proof fn lemma_seat_steps(n: int, d: int, s: int)
    requires
        0 <= d < n,
        0 <= s < n,
    ensures
        exists|j: int| 1 <= j <= n && #[trigger] seat_after(d, j, n) == s,
{
    if s > d {
        lemma_wrap(d + (s - d), n);
        assert(seat_after(d, s - d, n) == s);
    } else {
        lemma_wrap(d + (s + n - d), n);
        assert(seat_after(d, s + n - d, n) == s);
    }
}


/// With distinct ids, the seat holding an id is the one `index_of` names.
pub proof fn lemma_index_of_distinct(players: Seq<Player>, i: int)
    requires
        ids_distinct(players),
        0 <= i < players.len(),
    ensures
        index_of(players, players[i].id) == i,
        is_first_with_id(players, players[i].id, i),
{
    let id = players[i].id;
    assert(is_first_with_id(players, id, i));
    let c = index_of(players, id);
    assert(is_first_with_id(players, id, c));
}

/// Two tables with the same ids in the same seats have their first seat of an id present
/// at the same place.
pub proof fn lemma_same_ids_same_index(a: Seq<Player>, b: Seq<Player>, id: PlayerId)
    requires
        a.len() == b.len(),
        forall|i: int| 0 <= i < a.len() ==> #[trigger] a[i].id == b[i].id,
        has_player(a, id),
    ensures
        index_of(a, id) == index_of(b, id),
        is_first_with_id(a, id, index_of(a, id)),
{
    let w = choose|i: int| 0 <= i < a.len() && a[i].id == id;
    lemma_first_seat_exists(a, id, w);
    let ia = index_of(a, id);
    assert(is_first_with_id(a, id, ia));
    assert(b[ia].id == a[ia].id);
    assert forall|j: int| 0 <= j < ia implies b[j].id != id by {
        assert(a[j].id == b[j].id);
    }
    assert(is_first_with_id(b, id, ia));
    let ib = index_of(b, id);
    assert(is_first_with_id(b, id, ib));
    if ia < ib {
        assert(b[ia].id == id);
    } else if ib < ia {
        assert(a[ib].id == b[ib].id);
    }
}

/// A seat holding `id` has a first such seat at or before it.
pub proof fn lemma_first_seat_exists(a: Seq<Player>, id: PlayerId, w: int)
    requires
        0 <= w < a.len(),
        a[w].id == id,
    ensures
        exists|i: int| is_first_with_id(a, id, i),
    decreases w,
{
    if forall|j: int| 0 <= j < w ==> a[j].id != id {
        assert(is_first_with_id(a, id, w));
    } else {
        let j = choose|j: int| 0 <= j < w && a[j].id == id;
        lemma_first_seat_exists(a, id, j);
    }
}

/// The losses taken in turn, in the order the losers are listed: the first seat of each
/// loser's id loses a life, and a player left without one is eliminated, with an event.
pub open spec fn losses_taken(players: Seq<Player>, losers: Seq<PlayerId>) -> (
    Seq<Player>,
    Seq<EventModel>,
)
    decreases losers.len(),
{
    if losers.len() == 0 {
        (players, seq![])
    } else {
        let prev = losses_taken(players, losers.drop_last());
        let id = losers.last();
        let i = index_of(players, id);
        let p = prev.0[i].after_losing_life();
        (
            prev.0.update(i, p),
            if p.alive() {
                prev.1
            } else {
                prev.1.push(EventModel::PlayerEliminated { player_id: id })
            },
        )
    }
}

/// Taking losses changes lives and eliminations only.
pub proof fn lemma_losses_frame(players: Seq<Player>, losers: Seq<PlayerId>)
    requires
        forall|k: int| 0 <= k < losers.len() ==> has_player(players, #[trigger] losers[k]),
    ensures
        losses_taken(players, losers).0.len() == players.len(),
        forall|i: int|
            0 <= i < players.len() ==> (#[trigger] losses_taken(players, losers).0[i]) == (Player {
                lives: losses_taken(players, losers).0[i].lives,
                is_eliminated: losses_taken(players, losers).0[i].is_eliminated,
                ..players[i]
            }),
    decreases losers.len(),
{
    if losers.len() > 0 {
        let prev = losers.drop_last();
        assert forall|k: int| 0 <= k < prev.len() implies has_player(players, #[trigger] prev[k]) by {
            assert(prev[k] == losers[k]);
        }
        lemma_losses_frame(players, prev);
        let id = losers.last();
        assert(has_player(players, losers[losers.len() - 1]));
        let w = choose|i: int| 0 <= i < players.len() && players[i].id == id;
        lemma_first_seat_exists(players, id, w);
        let i = index_of(players, id);
        assert(is_first_with_id(players, id, i));
        let ps = losses_taken(players, prev).0;
        let post = losses_taken(players, losers).0;
        assert forall|j: int| 0 <= j < players.len() implies (#[trigger] post[j]) == (Player {
            lives: post[j].lives,
            is_eliminated: post[j].is_eliminated,
            ..players[j]
        }) by {
            assert(ps[j] == (Player { lives: ps[j].lives, is_eliminated: ps[j].is_eliminated, ..players[j] }));
        }
    }
}

/// Elimination events read only the losers' seats.
proof fn lemma_elimination_events_agree(a: Seq<Player>, b: Seq<Player>, losers: Seq<PlayerId>)
    requires
        forall|k: int|
            0 <= k < losers.len() ==> a[index_of(a, #[trigger] losers[k])].alive() == b[index_of(
                b,
                losers[k],
            )].alive(),
    ensures
        elimination_events(a, losers) == elimination_events(b, losers),
    decreases losers.len(),
{
    if losers.len() > 0 {
        let prev = losers.drop_last();
        assert forall|k: int| 0 <= k < prev.len() implies a[index_of(a, #[trigger] prev[k])].alive()
            == b[index_of(b, prev[k])].alive() by {
            assert(prev[k] == losers[k]);
        }
        lemma_elimination_events_agree(a, b, prev);
        assert(losers[losers.len() - 1] == losers.last());
    }
}

/// With distinct ids and no loser listed twice, taking the losses in turn is losing one
/// life each, all at once.
pub proof fn lemma_losses_distinct(players: Seq<Player>, losers: Seq<PlayerId>)
    requires
        ids_distinct(players),
        losers.no_duplicates(),
        forall|k: int| 0 <= k < losers.len() ==> has_player(players, #[trigger] losers[k]),
    ensures
        losses_taken(players, losers).0 == after_losses(players, losers),
        losses_taken(players, losers).1 == elimination_events(after_losses(players, losers), losers),
    decreases losers.len(),
{
    if losers.len() > 0 {
        let prev = losers.drop_last();
        assert forall|k: int| 0 <= k < prev.len() implies has_player(players, #[trigger] prev[k]) by {
            assert(prev[k] == losers[k]);
        }
        lemma_losses_distinct(players, prev);
        let id = losers.last();
        assert(has_player(players, losers[losers.len() - 1]));
        let w = choose|i: int| 0 <= i < players.len() && players[i].id == id;
        lemma_index_of_distinct(players, w);
        let i = w;
        assert(!prev.contains(id)) by {
            if prev.contains(id) {
                let m = choose|m: int| 0 <= m < prev.len() && prev[m] == id;
                assert(losers[m] == losers[losers.len() - 1]);
            }
        }
        let a1 = after_losses(players, prev);
        let a = after_losses(players, losers);
        assert(a1[i] == players[i]);
        assert forall|j: int| 0 <= j < players.len() implies #[trigger] a[j] == a1.update(
            i,
            players[i].after_losing_life(),
        )[j] by {
            if j != i {
                assert(players[j].id != id) by {
                    if j < i {
                        assert(players[j].id != players[i].id);
                    } else {
                        assert(players[i].id != players[j].id);
                    }
                }
                assert(losers.contains(players[j].id) == prev.contains(players[j].id)) by {
                    if losers.contains(players[j].id) {
                        let m = choose|m: int| 0 <= m < losers.len() && losers[m] == players[j].id;
                        assert(m < prev.len());
                        assert(prev[m] == losers[m]);
                    }
                    if prev.contains(players[j].id) {
                        let m = choose|m: int| 0 <= m < prev.len() && prev[m] == players[j].id;
                        assert(losers[m] == prev[m]);
                    }
                }
            } else {
                assert(losers[losers.len() - 1] == id);
            }
        }
        assert(losses_taken(players, losers).0 =~= a);
        assert(ids_distinct(a)) by {
            assert forall|x: int, y: int| 0 <= x < y < a.len() implies a[x].id != a[y].id by {
                assert(a[x].id == players[x].id && a[y].id == players[y].id);
            }
        }
        assert(ids_distinct(a1)) by {
            assert forall|x: int, y: int| 0 <= x < y < a1.len() implies a1[x].id != a1[y].id by {
                assert(a1[x].id == players[x].id && a1[y].id == players[y].id);
            }
        }
        assert forall|k: int| 0 <= k < prev.len() implies a[index_of(a, #[trigger] prev[k])].alive()
            == a1[index_of(a1, prev[k])].alive() by {
            let idk = prev[k];
            assert(has_player(players, losers[k]));
            let s = choose|s: int| 0 <= s < players.len() && players[s].id == idk;
            assert(a[s].id == idk && a1[s].id == idk);
            lemma_index_of_distinct(a, s);
            lemma_index_of_distinct(a1, s);
            assert(s != i);
            assert(a[s] == a1[s]) by {
                assert(players[s].id != id);
                assert(losers.contains(idk) && prev.contains(idk));
            }
        }
        lemma_elimination_events_agree(a, a1, prev);
        assert(a[i].id == id);
        lemma_index_of_distinct(a, i);
    }
}

/// Taking the votes in turn changes exemption tokens only, never raises them, and leaves
/// them with every player whose id has no exempt vote.
pub proof fn lemma_votes_frame(players: Seq<Player>, votes: Seq<(PlayerId, bool)>)
    requires
        forall|k: int| 0 <= k < votes.len() ==> has_player(players, (#[trigger] votes[k]).0),
        forall|a: int, b: int| 0 <= a < b < votes.len() ==> votes[a].0 != votes[b].0,
        forall|k: int|
            0 <= k < votes.len() && (#[trigger] votes[k]).1 ==> players[index_of(
                players,
                votes[k].0,
            )].exemption_tokens > 0,
    ensures
        votes_taken(players, votes).len() == players.len(),
        forall|i: int|
            0 <= i < players.len() ==> (#[trigger] votes_taken(players, votes)[i]) == (Player {
                exemption_tokens: votes_taken(players, votes)[i].exemption_tokens,
                ..players[i]
            }) && votes_taken(players, votes)[i].exemption_tokens <= players[i].exemption_tokens,
        forall|i: int|
            0 <= i < players.len() && (forall|k: int|
                0 <= k < votes.len() && votes[k].1 ==> votes[k].0 != players[i].id) ==> (
            #[trigger] votes_taken(players, votes)[i]).exemption_tokens
                == players[i].exemption_tokens,
    decreases votes.len(),
{
    if votes.len() > 0 {
        let prev = votes.drop_last();
        assert forall|k: int| 0 <= k < prev.len() implies has_player(players, (#[trigger] prev[k]).0) by {
            assert(prev[k] == votes[k]);
        }
        assert forall|a: int, b: int| 0 <= a < b < prev.len() implies prev[a].0 != prev[b].0 by {
            assert(prev[a] == votes[a] && prev[b] == votes[b]);
        }
        assert forall|k: int| 0 <= k < prev.len() && (#[trigger] prev[k]).1 implies players[index_of(
            players,
            prev[k].0,
        )].exemption_tokens > 0 by {
            assert(prev[k] == votes[k]);
        }
        lemma_votes_frame(players, prev);
        let n = votes.len() - 1;
        let v = votes[n];
        assert(votes.last() == v);
        let pv = votes_taken(players, prev);
        let vt = votes_taken(players, votes);
        if v.1 {
            assert(has_player(players, votes[n].0));
            let w = choose|i: int| 0 <= i < players.len() && players[i].id == v.0;
            lemma_first_seat_exists(players, v.0, w);
            let s = index_of(players, v.0);
            assert(is_first_with_id(players, v.0, s));
            assert(pv[s].exemption_tokens == players[s].exemption_tokens) by {
                assert forall|k: int| 0 <= k < prev.len() && prev[k].1 implies prev[k].0
                    != players[s].id by {
                    assert(prev[k] == votes[k]);
                }
            }
            assert(players[index_of(players, votes[n].0)].exemption_tokens > 0);
            assert forall|i: int|
                0 <= i < players.len() && (forall|k: int|
                    0 <= k < votes.len() && votes[k].1 ==> votes[k].0 != players[i].id) implies (
            #[trigger] vt[i]).exemption_tokens == players[i].exemption_tokens by {
                assert(votes[n].0 != players[i].id);
                assert(i != s);
                assert forall|k: int| 0 <= k < prev.len() && prev[k].1 implies prev[k].0
                    != players[i].id by {
                    assert(prev[k] == votes[k]);
                }
            }
        } else {
            assert forall|i: int|
                0 <= i < players.len() && (forall|k: int|
                    0 <= k < votes.len() && votes[k].1 ==> votes[k].0 != players[i].id) implies (
            #[trigger] vt[i]).exemption_tokens == players[i].exemption_tokens by {
                assert forall|k: int| 0 <= k < prev.len() && prev[k].1 implies prev[k].0
                    != players[i].id by {
                    assert(prev[k] == votes[k]);
                }
            }
        }
    }
}

/// With distinct ids, taking the votes in turn is every exempting player spending one
/// token at once.
pub proof fn lemma_votes_distinct(players: Seq<Player>, votes: Seq<(PlayerId, bool)>)
    requires
        ids_distinct(players),
        forall|k: int| 0 <= k < votes.len() ==> has_player(players, (#[trigger] votes[k]).0),
        forall|a: int, b: int| 0 <= a < b < votes.len() ==> votes[a].0 != votes[b].0,
    ensures
        votes_taken(players, votes) == after_votes(players, votes),
    decreases votes.len(),
{
    if votes.len() > 0 {
        let prev = votes.drop_last();
        assert forall|k: int| 0 <= k < prev.len() implies has_player(players, (#[trigger] prev[k]).0) by {
            assert(prev[k] == votes[k]);
        }
        assert forall|a: int, b: int| 0 <= a < b < prev.len() implies prev[a].0 != prev[b].0 by {
            assert(prev[a] == votes[a] && prev[b] == votes[b]);
        }
        lemma_votes_distinct(players, prev);
        let n = votes.len() - 1;
        let v = votes[n];
        assert(votes.last() == v);
        let a1 = after_votes(players, prev);
        let a = after_votes(players, votes);
        assert forall|j: int| 0 <= j < players.len() && players[j].id != v.0 implies (
            votes.contains((players[j].id, true)) == prev.contains((players[j].id, true))) by {
            if votes.contains((players[j].id, true)) {
                let m = choose|m: int| 0 <= m < votes.len() && votes[m] == (players[j].id, true);
                assert(m < prev.len());
                assert(prev[m] == votes[m]);
            }
            if prev.contains((players[j].id, true)) {
                let m = choose|m: int| 0 <= m < prev.len() && prev[m] == (players[j].id, true);
                assert(votes[m] == prev[m]);
            }
        }
        assert(has_player(players, votes[n].0));
        let w = choose|i: int| 0 <= i < players.len() && players[i].id == v.0;
        lemma_index_of_distinct(players, w);
        assert(!prev.contains((v.0, true))) by {
            if prev.contains((v.0, true)) {
                let m = choose|m: int| 0 <= m < prev.len() && prev[m] == (v.0, true);
                assert(votes[m].0 == votes[n].0);
            }
        }
        assert(!prev.contains((v.0, false))) by {
            if prev.contains((v.0, false)) {
                let m = choose|m: int| 0 <= m < prev.len() && prev[m] == (v.0, false);
                assert(votes[m].0 == votes[n].0);
            }
        }
        assert(votes.contains((v.0, true)) == v.1) by {
            if v.1 {
                assert(votes[n] == (v.0, true));
            } else if votes.contains((v.0, true)) {
                let m = choose|m: int| 0 <= m < votes.len() && votes[m] == (v.0, true);
                if m < n {
                    assert(prev[m] == votes[m]);
                }
            }
        }
        assert forall|j: int| 0 <= j < players.len() implies #[trigger] votes_taken(players, votes)[j]
            == a[j] by {
            if players[j].id != v.0 {
                assert(j != w);
            } else {
                assert(j == w) by {
                    if j < w {
                        assert(players[j].id != players[w].id);
                    } else if w < j {
                        assert(players[w].id != players[j].id);
                    }
                }
            }
        }
        assert(votes_taken(players, votes) =~= a);
    }
}

/// The losers of a showdown are players of the table, and with distinct ids and an order
/// without repeats, none is listed twice.
pub proof fn lemma_showdown_losers(g: GameModel)
    requires
        g.order_in_range(),
    ensures
        ({
            let active = active_seats(g.alive_order, g.exempted);
            let rs = shown_cards(g.players, active);
            let losers = loser_ids(rs, g.is_cowboy_round, lowest_value(rs, g.is_cowboy_round));
            &&& forall|k: int| 0 <= k < losers.len() ==> has_player(g.players, #[trigger] losers[k])
            &&& g.alive_order.no_duplicates() && ids_distinct(g.players) ==> losers.no_duplicates()
        }),
{
    let active = active_seats(g.alive_order, g.exempted);
    let rs = shown_cards(g.players, active);
    let cowboy = g.is_cowboy_round;
    let low = lowest_value(rs, cowboy);
    let losers = loser_ids(rs, cowboy, low);
    lemma_active_seats(g.alive_order, g.exempted);
    assert forall|k: int| 0 <= k < active.len() implies (#[trigger] active[k]) < g.players.len() by {
        let j = choose|j: int| 0 <= j < g.alive_order.len() && g.alive_order[j] == active[k];
        assert(g.alive_order[j] < g.players.len());
    }
    lemma_reveals(g.players, active);
    lemma_loser_ids(rs, cowboy, low);
    assert forall|k: int| 0 <= k < losers.len() implies has_player(g.players, #[trigger] losers[k]) by {
        let j = choose|j: int| 0 <= j < rs.len() && rs[j].0 == losers[k] && card_value(rs[j].1, cowboy) == low;
        assert(rs[j] == shown_cards(g.players, active)[j]);
        let m = choose|m: int|
            0 <= m < active.len() && g.players[active[m] as int].id == rs[j].0
                && g.players[active[m] as int].hand == Some(rs[j].1);
        assert(active[m] < g.players.len());
    }
}

/// The showdown changes lives and eliminations only.
pub proof fn lemma_showdown_frame(g: GameModel)
    requires
        g.order_in_range(),
    ensures
        g.showdown().players.len() == g.players.len(),
        forall|i: int|
            0 <= i < g.players.len() ==> (#[trigger] g.showdown().players[i]) == (Player {
                lives: g.showdown().players[i].lives,
                is_eliminated: g.showdown().players[i].is_eliminated,
                ..g.players[i]
            }),
{
    let active = active_seats(g.alive_order, g.exempted);
    if active.len() > 0 {
        let rs = shown_cards(g.players, active);
        let losers = loser_ids(rs, g.is_cowboy_round, lowest_value(rs, g.is_cowboy_round));
        lemma_showdown_losers(g);
        lemma_losses_frame(g.players, losers);
    }
}

/// With distinct ids and an order without repeats, the losers of a showdown each lose one
/// life, all at once.
pub proof fn lemma_showdown_distinct(g: GameModel)
    requires
        g.order_in_range(),
        g.alive_order.no_duplicates(),
        ids_distinct(g.players),
    ensures
        ({
            let active = active_seats(g.alive_order, g.exempted);
            let rs = shown_cards(g.players, active);
            let losers = loser_ids(rs, g.is_cowboy_round, lowest_value(rs, g.is_cowboy_round));
            active.len() > 0 ==> losses_taken(g.players, losers) == (
                after_losses(g.players, losers),
                elimination_events(after_losses(g.players, losers), losers),
            )
        }),
{
    let active = active_seats(g.alive_order, g.exempted);
    let rs = shown_cards(g.players, active);
    let losers = loser_ids(rs, g.is_cowboy_round, lowest_value(rs, g.is_cowboy_round));
    lemma_showdown_losers(g);
    lemma_losses_distinct(g.players, losers);
}

/// The active seats are seats of the order, without repeats when the order has none.
pub proof fn lemma_active_seats(order: Seq<usize>, exempted: Seq<usize>)
    ensures
        forall|k: int|
            0 <= k < active_seats(order, exempted).len() ==> order.contains(
                #[trigger] active_seats(order, exempted)[k],
            ) && !exempted.contains(active_seats(order, exempted)[k]),
        forall|x: usize| order.contains(x) && !exempted.contains(x) ==> active_seats(order, exempted).contains(x),
        order.no_duplicates() ==> active_seats(order, exempted).no_duplicates(),
    decreases order.len(),
{
    if order.len() > 0 {
        let prev = order.drop_last();
        lemma_active_seats(prev, exempted);
        let a = active_seats(order, exempted);
        let pa = active_seats(prev, exempted);
        assert forall|k: int| 0 <= k < pa.len() implies order.contains(#[trigger] pa[k]) by {
            let j = choose|j: int| 0 <= j < prev.len() && prev[j] == pa[k];
            assert(order[j] == pa[k]);
        }
        assert forall|x: usize| order.contains(x) && !exempted.contains(x) implies a.contains(x) by {
            let j = choose|j: int| 0 <= j < order.len() && order[j] == x;
            if j < order.len() - 1 {
                assert(prev[j] == x);
                let m = choose|m: int| 0 <= m < pa.len() && pa[m] == x;
                assert(a[m] == x);
            } else {
                assert(a[a.len() - 1] == x);
            }
        }
        if order.no_duplicates() {
            assert(prev.no_duplicates());
            if !exempted.contains(order.last()) {
                assert forall|k: int| 0 <= k < pa.len() implies pa[k] != order.last() by {
                    let j = choose|j: int| 0 <= j < prev.len() && prev[j] == pa[k];
                    assert(order[j] == pa[k]);
                }
            }
        }
    }
}

/// What the shown cards are: each comes from a player of `seats` with that card in hand,
/// and, when seats and ids are distinct, no id shows twice.
pub proof fn lemma_reveals(players: Seq<Player>, seats: Seq<usize>)
    requires
        forall|k: int| 0 <= k < seats.len() ==> (#[trigger] seats[k]) < players.len(),
    ensures
        forall|k: int|
            #![trigger shown_cards(players, seats)[k]]
            0 <= k < shown_cards(players, seats).len() ==> exists|j: int|
                0 <= j < seats.len() && players[seats[j] as int].id == shown_cards(players, seats)[k].0
                    && players[seats[j] as int].hand == Some(shown_cards(players, seats)[k].1),
        forall|j: int|
            0 <= j < seats.len() && (#[trigger] players[seats[j] as int]).hand is Some
                ==> exists|k: int|
                0 <= k < shown_cards(players, seats).len() && shown_cards(players, seats)[k].0
                    == players[seats[j] as int].id,
        seats.no_duplicates() && ids_distinct(players) ==> forall|a: int, b: int|
            0 <= a < b < shown_cards(players, seats).len() ==> shown_cards(players, seats)[a].0
                != shown_cards(players, seats)[b].0,
    decreases seats.len(),
{
    if seats.len() > 0 {
        let prev = seats.drop_last();
        lemma_reveals(players, prev);
        let rs = shown_cards(players, seats);
        let pr = shown_cards(players, prev);
        assert forall|k: int| #![trigger rs[k]] 0 <= k < rs.len() implies exists|j: int|
            0 <= j < seats.len() && players[seats[j] as int].id == rs[k].0 && players[seats[j] as int].hand
                == Some(rs[k].1) by {
            if k < pr.len() {
                assert(rs[k] == pr[k]);
                let j = choose|j: int|
                    0 <= j < prev.len() && players[prev[j] as int].id == pr[k].0
                        && players[prev[j] as int].hand == Some(pr[k].1);
                assert(seats[j] == prev[j]);
            } else {
                assert(seats[seats.len() - 1] == seats.last());
            }
        }
        assert forall|j: int|
            0 <= j < seats.len() && (#[trigger] players[seats[j] as int]).hand is Some implies exists|k: int|
            0 <= k < rs.len() && rs[k].0 == players[seats[j] as int].id by {
            if j < seats.len() - 1 {
                assert(prev[j] == seats[j]);
                let k = choose|k: int| 0 <= k < pr.len() && pr[k].0 == players[prev[j] as int].id;
                assert(rs[k] == pr[k]);
            } else {
                assert(rs[rs.len() - 1].0 == players[seats[j] as int].id);
            }
        }
        if seats.no_duplicates() && ids_distinct(players) {
            assert(prev.no_duplicates());
            let last = seats.last();
            if players[last as int].hand is Some {
                assert forall|k: int| 0 <= k < pr.len() implies pr[k].0 != players[last as int].id by {
                    let j = choose|j: int|
                        0 <= j < prev.len() && players[prev[j] as int].id == pr[k].0
                            && players[prev[j] as int].hand == Some(pr[k].1);
                    assert(prev[j] != last);
                    assert(prev[j] < players.len());
                    if prev[j] < last {
                        assert(players[prev[j] as int].id != players[last as int].id);
                    } else {
                        assert(players[last as int].id != players[prev[j] as int].id);
                    }
                }
            }
        }
    }
}

/// The losers are some of the shown ids, with the lowest value, without repeats when the
/// shown ids have none.
pub proof fn lemma_loser_ids(rs: Seq<(PlayerId, Card)>, cowboy: bool, low: int)
    ensures
        forall|k: int|
            #![trigger loser_ids(rs, cowboy, low)[k]]
            0 <= k < loser_ids(rs, cowboy, low).len() ==> exists|j: int|
                0 <= j < rs.len() && rs[j].0 == loser_ids(rs, cowboy, low)[k] && card_value(
                    rs[j].1,
                    cowboy,
                ) == low,
        forall|j: int|
            0 <= j < rs.len() && card_value(#[trigger] rs[j].1, cowboy) == low ==> loser_ids(
                rs,
                cowboy,
                low,
            ).contains(rs[j].0),
        (forall|a: int, b: int| 0 <= a < b < rs.len() ==> rs[a].0 != rs[b].0) ==> loser_ids(
            rs,
            cowboy,
            low,
        ).no_duplicates(),
    decreases rs.len(),
{
    if rs.len() > 0 {
        let prev = rs.drop_last();
        lemma_loser_ids(prev, cowboy, low);
        let ls = loser_ids(rs, cowboy, low);
        let pl = loser_ids(prev, cowboy, low);
        assert forall|k: int| #![trigger ls[k]] 0 <= k < ls.len() implies exists|j: int|
            0 <= j < rs.len() && rs[j].0 == ls[k] && card_value(rs[j].1, cowboy) == low by {
            if k < pl.len() {
                assert(ls[k] == pl[k]);
                let j = choose|j: int|
                    0 <= j < prev.len() && prev[j].0 == pl[k] && card_value(prev[j].1, cowboy) == low;
                assert(rs[j] == prev[j]);
            } else {
                assert(rs[rs.len() - 1] == rs.last());
            }
        }
        assert forall|j: int|
            0 <= j < rs.len() && card_value(#[trigger] rs[j].1, cowboy) == low implies ls.contains(
            rs[j].0,
        ) by {
            if j < rs.len() - 1 {
                assert(prev[j] == rs[j]);
                let m = choose|m: int| 0 <= m < pl.len() && pl[m] == prev[j].0;
                assert(ls[m] == pl[m]);
            } else {
                assert(ls[ls.len() - 1] == rs[j].0);
            }
        }
        if forall|a: int, b: int| 0 <= a < b < rs.len() ==> rs[a].0 != rs[b].0 {
            assert(forall|a: int, b: int| 0 <= a < b < prev.len() ==> prev[a].0 != prev[b].0);
            if card_value(rs.last().1, cowboy) == low {
                assert forall|k: int| 0 <= k < pl.len() implies pl[k] != rs.last().0 by {
                    let j = choose|j: int|
                        0 <= j < prev.len() && prev[j].0 == pl[k] && card_value(prev[j].1, cowboy) == low;
                    assert(rs[j] == prev[j]);
                    assert(rs[j].0 != rs[rs.len() - 1].0);
                }
            }
        }
    }
}

/// The final votes: the staged ones first, then defaults; each names a player, no player
/// twice, and every exempt vote comes from a token holder.
pub proof fn lemma_final_votes(players: Seq<Player>, order: Seq<usize>, votes: Seq<(PlayerId, bool)>)
    requires
        forall|k: int| 0 <= k < order.len() ==> (#[trigger] order[k]) < players.len(),
        forall|k: int| 0 <= k < votes.len() ==> has_player(players, (#[trigger] votes[k]).0),
        forall|a: int, b: int| 0 <= a < b < votes.len() ==> votes[a].0 != votes[b].0,
    ensures
        ({
            let fv = final_votes(players, order, votes);
            &&& forall|k: int| 0 <= k < fv.len() ==> has_player(players, (#[trigger] fv[k]).0)
            &&& forall|a: int, b: int| 0 <= a < b < fv.len() ==> fv[a].0 != fv[b].0
            &&& ids_distinct(players) && (forall|k: int|
                0 <= k < votes.len() && (#[trigger] votes[k]).1 ==> players[index_of(
                    players,
                    votes[k].0,
                )].exemption_tokens > 0) ==> forall|k: int|
                0 <= k < fv.len() && (#[trigger] fv[k]).1 ==> players[index_of(
                    players,
                    fv[k].0,
                )].exemption_tokens > 0
        }),
    decreases order.len(),
{
    if order.len() > 0 {
        let prev = order.drop_last();
        lemma_final_votes(players, prev, votes);
        let pv = final_votes(players, prev, votes);
        let i = order.last() as int;
        assert(order[order.len() - 1] == order.last());
        let p = players[i];
        if !voted(pv, p.id) {
            let fv = pv.push((p.id, p.exemption_tokens > 0));
            if ids_distinct(players) {
                lemma_index_of_distinct(players, i);
            }
            assert(has_player(players, p.id)) by {
                assert(players[i].id == p.id);
            }
            assert forall|a: int, b: int| 0 <= a < b < fv.len() implies fv[a].0 != fv[b].0 by {
                if b == fv.len() - 1 {
                    assert(fv[a] == pv[a]);
                }
            }
        }
    }
}

/// The king seats are seats of the order.
pub proof fn lemma_king_seats(players: Seq<Player>, seats: Seq<usize>)
    ensures
        forall|m: int|
            0 <= m < king_seats(players, seats).len() ==> seats.contains(
                #[trigger] king_seats(players, seats)[m],
            ),
    decreases seats.len(),
{
    if seats.len() > 0 {
        let prev = seats.drop_last();
        lemma_king_seats(players, prev);
        let ks = king_seats(players, seats);
        let pk = king_seats(players, prev);
        assert forall|m: int| 0 <= m < ks.len() implies seats.contains(#[trigger] ks[m]) by {
            if m < pk.len() {
                let j = choose|j: int| 0 <= j < prev.len() && prev[j] == pk[m];
                assert(seats[j] == prev[j]);
            } else {
                assert(seats[seats.len() - 1] == seats.last());
            }
        }
    }
}

/// The alive indices are exactly the alive seats, each once, in seat order.
pub proof fn lemma_alive_indices(players: Seq<Player>)
    requires
        players.len() <= usize::MAX,
    ensures
        forall|m: int|
            0 <= m < alive_indices(players).len() ==> (#[trigger] alive_indices(players)[m])
                < players.len() && players[alive_indices(players)[m] as int].alive(),
        forall|i: int|
            0 <= i < players.len() && (#[trigger] players[i]).alive() ==> alive_indices(
                players,
            ).contains(i as usize),
        alive_indices(players).len() <= players.len(),
        forall|m1: int, m2: int|
            0 <= m1 < m2 < alive_indices(players).len() ==> alive_indices(players)[m1]
                < alive_indices(players)[m2],
    decreases players.len(),
{
    if players.len() > 0 {
        let prev = players.drop_last();
        lemma_alive_indices(prev);
        let a = alive_indices(players);
        let pa = alive_indices(prev);
        assert forall|m: int| 0 <= m < a.len() implies (#[trigger] a[m]) < players.len()
            && players[a[m] as int].alive() by {
            if m < pa.len() {
                assert(a[m] == pa[m]);
                assert(prev[pa[m] as int] == players[pa[m] as int]);
            }
        }
        assert forall|i: int| 0 <= i < players.len() && (#[trigger] players[i]).alive() implies a.contains(
            i as usize,
        ) by {
            if i < players.len() - 1 {
                assert(prev[i] == players[i]);
                let m = choose|m: int| 0 <= m < pa.len() && pa[m] == i as usize;
                assert(a[m] == pa[m]);
            } else {
                assert(a[a.len() - 1] == i as usize);
            }
        }
    }
}

/// The lowest value is the value of some shown card and no shown card is lower.
pub proof fn lemma_lowest_value(rs: Seq<(PlayerId, Card)>, cowboy: bool)
    requires
        rs.len() > 0,
    ensures
        exists|j: int| 0 <= j < rs.len() && card_value(rs[j].1, cowboy) == lowest_value(rs, cowboy),
        forall|j: int| 0 <= j < rs.len() ==> lowest_value(rs, cowboy) <= card_value(#[trigger] rs[j].1, cowboy),
    decreases rs.len(),
{
    if rs.len() == 1 {
        assert(card_value(rs[0].1, cowboy) == lowest_value(rs, cowboy));
    } else {
        let prev = rs.drop_last();
        lemma_lowest_value(prev, cowboy);
        let j0 = choose|j: int| 0 <= j < prev.len() && card_value(prev[j].1, cowboy) == lowest_value(prev, cowboy);
        assert(rs[j0] == prev[j0]);
        assert(rs[rs.len() - 1] == rs.last());
        if card_value(rs.last().1, cowboy) < lowest_value(prev, cowboy) {
            assert(card_value(rs[rs.len() - 1].1, cowboy) == lowest_value(rs, cowboy));
        } else {
            assert(card_value(rs[j0].1, cowboy) == lowest_value(rs, cowboy));
        }
        assert forall|j: int| 0 <= j < rs.len() implies lowest_value(rs, cowboy) <= card_value(#[trigger] rs[j].1, cowboy) by {
            if j < rs.len() - 1 {
                assert(rs[j] == prev[j]);
            }
        }
    }
}

impl GameModel {
    /// The id of the player at position `k` of the order of play.
    pub open spec fn seat_id(self, k: int) -> PlayerId {
        self.players[self.alive_order[k] as int].id
    }

    /// Every entry of the order of play is a seat.
    pub open spec fn order_in_range(self) -> bool {
        forall|k: int|
            0 <= k < self.alive_order.len() ==> (#[trigger] self.alive_order[k]) < self.players.len()
    }

    pub open spec fn with_event(self, e: EventModel) -> GameModel {
        GameModel { events: self.events.push(e), ..self }
    }

    pub open spec fn with_error(self, e: GameError) -> (GameModel, Result<(), GameError>) {
        (self, Err(e))
    }

    /// The turn goes to position `idx` of the order; from the dealer's position on, it is
    /// the dealer's turn.
    pub open spec fn turn_from(self, idx: int) -> GameModel {
        let last = self.alive_order.len() - 1;
        if idx >= last {
            GameModel {
                phase: PhaseModel::DealerTurn,
                ..self.with_event(EventModel::DealerTurnStarted { dealer_id: self.seat_id(last) })
            }
        } else {
            GameModel {
                phase: PhaseModel::NormalTurn { current_idx: idx as usize },
                ..self.with_event(EventModel::NormalTurnStarted { player_id: self.seat_id(idx) })
            }
        }
    }

    /// A cowboy vote opens.
    pub open spec fn cowboy_vote_opened(self) -> GameModel {
        GameModel {
            phase: PhaseModel::CowboyVote { votes: seq![] },
            ..self.with_event(EventModel::CowboyVoteStarted)
        }
    }

    /// After the deal: a king among the dealt hands makes a cowboy round, otherwise the
    /// first player after the dealer starts.
    pub open spec fn after_king_check(self) -> GameModel {
        let kings = king_seats(self.players, self.alive_order);
        if kings.len() > 0 {
            GameModel {
                is_cowboy_round: true,
                ..self.with_event(
                    EventModel::CowboyTriggered {
                        king_holders: seat_ids(self.players, kings),
                        source: CowboySource::Deal,
                    },
                ).cowboy_vote_opened()
            }
        } else {
            self.turn_from(0)
        }
    }

    /// The state right after dealing `players` and `deck` for the next round.
    pub open spec fn dealt(self, players: Seq<Player>, deck: Seq<Card>) -> GameModel {
        let order = round_order(self.players, self.dealer_idx as int);
        GameModel {
            players,
            phase: PhaseModel::KingCheck,
            deck,
            round_number: (self.round_number + 1) as u32,
            alive_order: order,
            is_cowboy_round: false,
            exempted: seq![],
            events: self.events.push(
                EventModel::RoundStarted {
                    round_number: (self.round_number + 1) as u32,
                    dealer_id: self.players[self.dealer_idx as int].id,
                },
            ) + dealt_events(self.players, order),
            ..self
        }
    }

    /// `post` is a new round started from `self`: a fresh deck was shuffled, each player
    /// of the order of play was dealt one card, and the kings were checked.
    pub open spec fn round_started(self, post: GameModel) -> bool {
        &&& is_deal(
            self.players,
            round_order(self.players, self.dealer_idx as int),
            post.players,
            post.deck,
        )
        &&& post == self.dealt(post.players, post.deck).after_king_check()
    }

    /// Where a round can be started without running out of cards or round numbers.
    pub open spec fn can_start_round(self) -> bool {
        &&& self.dealer_idx < self.players.len()
        &&& round_order(self.players, self.dealer_idx as int).len() > 0
        &&& round_order(self.players, self.dealer_idx as int).len() <= 52
        &&& self.round_number < u32::MAX
    }

    /// The showdown: the active players show their cards and those with the lowest value
    /// lose a life; if nobody is active, nobody loses.
    pub open spec fn showdown(self) -> GameModel {
        let active = active_seats(self.alive_order, self.exempted);
        if active.len() == 0 {
            GameModel {
                phase: PhaseModel::RoundEnd,
                ..self.with_event(EventModel::EveryoneExempted)
            }
        } else {
            let rs = shown_cards(self.players, active);
            let low = lowest_value(rs, self.is_cowboy_round);
            let losers = loser_ids(rs, self.is_cowboy_round, low);
            let taken = losses_taken(self.players, losers);
            GameModel {
                phase: PhaseModel::RoundEnd,
                players: taken.0,
                events: self.events.push(
                    EventModel::ShowdownResult {
                        reveals: rs,
                        losers,
                        is_cowboy_round: self.is_cowboy_round,
                    },
                ) + taken.1,
                ..self
            }
        }
    }

    /// Where a showdown is defined: some active player shows a card, and no king is shown
    /// in a normal round.
    pub open spec fn can_show_down(self) -> bool {
        let active = active_seats(self.alive_order, self.exempted);
        let rs = shown_cards(self.players, active);
        &&& self.order_in_range()
        &&& self.alive_order.no_duplicates()
        &&& active.len() > 0 ==> rs.len() > 0
        &&& !self.is_cowboy_round ==> forall|k: int|
            0 <= k < rs.len() ==> !(#[trigger] rs[k]).1.is_king()
    }

    /// Starting the game.
    pub open spec fn start_step(
        self,
        post: GameModel,
        lives: u8,
        blockers: u8,
        exemptions: u8,
        r: Result<(), GameError>,
    ) -> bool {
        if !(self.phase is Lobby) {
            post == self && r == Err::<(), GameError>(GameError::NotInLobby)
        } else if self.players.len() < 2 {
            post == self && r == Err::<(), GameError>(GameError::NotEnoughPlayers)
        } else {
            let players = equipped(self.players, lives, blockers, exemptions);
            let mid = GameModel {
                players,
                original_player_count: self.players.len() as usize,
                dealer_idx: post.dealer_idx,
                events: self.events.push(
                    EventModel::GameStarted { dealer_id: players[post.dealer_idx as int].id },
                ),
                ..self
            };
            &&& r is Ok
            &&& post.dealer_idx < self.players.len()
            &&& mid.round_started(post)
        }
    }

    /// Passing on one's normal turn.
    pub open spec fn pass_step(self, id: PlayerId) -> (GameModel, Result<(), GameError>) {
        match self.phase {
            PhaseModel::NormalTurn { current_idx } => {
                if self.seat_id(current_idx as int) != id {
                    self.with_error(GameError::NotYourTurn(id))
                } else {
                    (
                        self.with_event(EventModel::PlayerPassed { player_id: id }).turn_from(
                            current_idx + 1,
                        ),
                        Ok(()),
                    )
                }
            },
            _ => self.with_error(GameError::InvalidAction),
        }
    }

    /// The hands of positions `a` and `b` of the order of play exchanged.
    pub open spec fn traded(self, a: int, b: int) -> GameModel {
        let from = self.alive_order[a] as int;
        let to = self.alive_order[b] as int;
        GameModel {
            players: swap_hands(self.players, from, to),
            ..self.with_event(
                EventModel::TradeCompleted {
                    from_id: self.players[from].id,
                    to_id: self.players[to].id,
                },
            )
        }
    }

    /// Proposing a trade with the next player: it completes at once unless that player
    /// could block it.
    pub open spec fn trade_step(self, id: PlayerId) -> (GameModel, Result<(), GameError>) {
        match self.phase {
            PhaseModel::NormalTurn { current_idx } => {
                let ci = current_idx as int;
                if self.seat_id(ci) != id {
                    self.with_error(GameError::NotYourTurn(id))
                } else {
                    let target = self.alive_order[ci + 1] as int;
                    let proposed = self.with_event(
                        EventModel::TradeProposed { from_id: id, to_id: self.players[target].id },
                    );
                    if self.players[target].blocker_tokens > 0 {
                        (
                            GameModel {
                                phase: PhaseModel::WaitingForBlock {
                                    trader_idx: current_idx,
                                    target_idx: (current_idx + 1) as usize,
                                },
                                ..proposed
                            },
                            Ok(()),
                        )
                    } else {
                        (proposed.traded(ci, ci + 1).turn_from(ci + 1), Ok(()))
                    }
                }
            },
            _ => self.with_error(GameError::InvalidAction),
        }
    }

    /// Blocking a proposed trade with a blocker token.
    pub open spec fn block_step(self, id: PlayerId) -> (GameModel, Result<(), GameError>) {
        match self.phase {
            PhaseModel::WaitingForBlock { trader_idx, target_idx } => {
                let t = self.alive_order[target_idx as int] as int;
                if self.players[t].id != id {
                    self.with_error(GameError::NotYourTurn(id))
                } else if self.players[t].blocker_tokens == 0 {
                    self.with_error(GameError::NoBlockerToken(id))
                } else {
                    let p = self.players[t];
                    (
                        GameModel {
                            players: self.players.update(
                                t,
                                Player { blocker_tokens: (p.blocker_tokens - 1) as u8, ..p },
                            ),
                            ..self.with_event(EventModel::TradeBlocked { blocker_id: id })
                        }.turn_from(trader_idx + 1),
                        Ok(()),
                    )
                }
            },
            _ => self.with_error(GameError::InvalidAction),
        }
    }

    /// Accepting a proposed trade.
    pub open spec fn accept_step(self, id: PlayerId) -> (GameModel, Result<(), GameError>) {
        match self.phase {
            PhaseModel::WaitingForBlock { trader_idx, target_idx } => {
                if self.seat_id(target_idx as int) != id {
                    self.with_error(GameError::NotYourTurn(id))
                } else {
                    (
                        self.traded(trader_idx as int, target_idx as int).turn_from(
                            trader_idx + 1,
                        ),
                        Ok(()),
                    )
                }
            },
            _ => self.with_error(GameError::InvalidAction),
        }
    }

    /// The dealer keeps the card and the showdown follows.
    pub open spec fn dealer_pass_step(self, id: PlayerId) -> (GameModel, Result<(), GameError>) {
        match self.phase {
            PhaseModel::DealerTurn => {
                if self.seat_id(self.alive_order.len() - 1) != id {
                    self.with_error(GameError::NotYourTurn(id))
                } else {
                    (
                        self.with_event(EventModel::DealerPassed { dealer_id: id }).showdown(),
                        Ok(()),
                    )
                }
            },
            _ => self.with_error(GameError::InvalidAction),
        }
    }

    /// The dealer swaps the card for the top of the deck; a king drawn starts a cowboy
    /// round, anything else goes to the showdown.
    pub open spec fn take_off_top_step(self, id: PlayerId) -> (GameModel, Result<(), GameError>) {
        match self.phase {
            PhaseModel::DealerTurn => {
                let d = self.alive_order.last() as int;
                if self.players[d].id != id {
                    self.with_error(GameError::NotYourTurn(id))
                } else {
                    let card = self.deck.last();
                    let drawn = self.after_draw(id);
                    if card.is_king() {
                        (
                            GameModel {
                                is_cowboy_round: true,
                                ..drawn.with_event(
                                    EventModel::CowboyTriggered {
                                        king_holders: seq![id],
                                        source: CowboySource::DealerDraw,
                                    },
                                ).cowboy_vote_opened()
                            },
                            Ok(()),
                        )
                    } else {
                        (drawn.showdown(), Ok(()))
                    }
                }
            },
            _ => self.with_error(GameError::InvalidAction),
        }
    }


    /// The dealer's card replaced by the top card of the deck.
    pub open spec fn after_draw(self, id: PlayerId) -> GameModel {
        let d = self.alive_order.last() as int;
        let card = self.deck.last();
        GameModel {
            players: self.players.update(d, Player { hand: Some(card), ..self.players[d] }),
            deck: self.deck.drop_last(),
            ..self.with_event(EventModel::DealerDrewCard { dealer_id: id, card })
        }
    }

    /// Where the staged votes can be resolved: every vote names a player, no player
    /// voted twice, and for every exempt vote, staged or by default, the first seat of
    /// the voter's id holds a token to spend.
    pub open spec fn can_resolve(self, votes: Seq<(PlayerId, bool)>) -> bool {
        let fv = final_votes(self.players, self.alive_order, votes);
        &&& self.order_in_range()
        &&& forall|k: int| 0 <= k < votes.len() ==> has_player(self.players, (#[trigger] votes[k]).0)
        &&& forall|a: int, b: int| 0 <= a < b < votes.len() ==> votes[a].0 != votes[b].0
        &&& forall|k: int|
            0 <= k < fv.len() && (#[trigger] fv[k]).1 ==> self.players[index_of(
                self.players,
                fv[k].0,
            )].exemption_tokens > 0
        &&& self.votes_applied(votes).can_show_down()
    }

    /// Staging a cowboy vote: checked, recorded, and nothing else happens yet.
    pub open spec fn vote_step(self, id: PlayerId, exempt: bool) -> (
        GameModel,
        Result<(), GameError>,
    ) {
        match self.phase {
            PhaseModel::CowboyVote { votes } => {
                if !has_player(self.players, id) {
                    self.with_error(GameError::PlayerNotFound(id))
                } else {
                    let p = self.players[index_of(self.players, id)];
                    if !p.alive() {
                        self.with_error(GameError::PlayerEliminated(id))
                    } else if voted(votes, id) {
                        self.with_error(GameError::InvalidAction)
                    } else if exempt && p.exemption_tokens == 0 {
                        self.with_error(GameError::NoExemptionToken(id))
                    } else {
                        (
                            GameModel {
                                phase: PhaseModel::CowboyVote { votes: votes.push((id, exempt)) },
                                ..self
                            },
                            Ok(()),
                        )
                    }
                }
            },
            _ => self.with_error(GameError::InvalidAction),
        }
    }

    /// The votes applied: exempting players spend a token and sit out, then the showdown.
    pub open spec fn votes_applied(self, votes: Seq<(PlayerId, bool)>) -> GameModel {
        let fv = final_votes(self.players, self.alive_order, votes);
        GameModel {
            players: votes_taken(self.players, fv),
            exempted: self.exempted + exempt_seats(self.players, fv),
            events: self.events + vote_events(fv),
            ..self
        }
    }

    /// Resolving the cowboy vote.
    pub open spec fn resolve_step(self) -> (GameModel, Result<(), GameError>) {
        match self.phase {
            PhaseModel::CowboyVote { votes } => (self.votes_applied(votes).showdown(), Ok(())),
            _ => self.with_error(GameError::InvalidAction),
        }
    }

    /// The state after a round ended and before the next round is dealt: hands cleared,
    /// a resurrection if nobody survived, and the dealer chip passed on.
    pub open spec fn between_rounds(self) -> GameModel {
        let ps = cleared_hands(self.players);
        let nobody = alive_indices(ps).len() == 0;
        let ps2 = if nobody {
            revived(ps, self.alive_order)
        } else {
            ps
        };
        let ev = if nobody {
            self.events.push(EventModel::ResurrectionTriggered)
        } else {
            self.events
        };
        let d = next_alive_seat(ps2, self.dealer_idx as int);
        GameModel {
            players: ps2,
            dealer_idx: d as usize,
            events: ev.push(EventModel::DealerChipPassed { new_dealer_id: ps2[d].id }),
            ..self
        }
    }

    /// Moving on from the end of a round: a lone survivor wins, otherwise the next round starts.
    pub open spec fn next_round_step(self, post: GameModel, r: Result<(), GameError>) -> bool {
        if !(self.phase is RoundEnd) {
            post == self && r == Err::<(), GameError>(GameError::InvalidAction)
        } else {
            let ps = cleared_hands(self.players);
            let alive = alive_indices(ps);
            if alive.len() == 1 {
                let w = ps[alive[0] as int].id;
                &&& r is Ok
                &&& post == GameModel {
                    players: ps,
                    phase: PhaseModel::GameOver { winner: Some(w) },
                    ..self.with_event(EventModel::GameWon { winner_id: w })
                }
            } else {
                &&& r is Ok
                &&& self.between_rounds().round_started(post)
            }
        }
    }

    /// The game with its event log emptied.
    pub open spec fn cleared_log(self) -> GameModel {
        GameModel { events: seq![], ..self }
    }

    /// The states and actions on which an action runs to completion: the order of play,
    /// the turn positions, the deck and the staged votes are consistent where the action
    /// reads them.
    pub open spec fn can_act(self, id: PlayerId, action: Action) -> bool {
        match action {
            Action::StartGame { lives, .. } => self.phase is Lobby && self.players.len() >= 2
                ==> lives > 0 && self.players.len() <= 52 && self.round_number < u32::MAX,
            Action::Pass => self.phase matches PhaseModel::NormalTurn { current_idx }
                ==> current_idx < self.alive_order.len() && self.order_in_range(),
            Action::Trade => self.phase matches PhaseModel::NormalTurn { current_idx }
                ==> current_idx + 1 < self.alive_order.len() && self.order_in_range(),
            Action::Block => self.phase matches PhaseModel::WaitingForBlock {
                trader_idx,
                target_idx,
            } ==> target_idx < self.alive_order.len() && trader_idx < usize::MAX
                && self.order_in_range(),
            Action::AcceptTrade => self.phase matches PhaseModel::WaitingForBlock {
                trader_idx,
                target_idx,
            } ==> target_idx < self.alive_order.len() && trader_idx < self.alive_order.len()
                && self.order_in_range(),
            Action::DealerPass => self.phase is DealerTurn ==> self.alive_order.len() > 0
                && self.order_in_range() && (self.seat_id(self.alive_order.len() - 1) == id
                ==> self.can_show_down()),
            Action::TakeOffTop => self.phase is DealerTurn ==> self.alive_order.len() > 0
                && self.order_in_range() && (self.seat_id(self.alive_order.len() - 1) == id
                ==> self.deck.len() > 0 && (!self.deck.last().is_king()
                ==> self.after_draw(id).can_show_down())),
            Action::CowboyVote { .. } => true,
            Action::ResolveCowboyVote => self.phase matches PhaseModel::CowboyVote { votes }
                ==> self.can_resolve(votes),
            Action::NextRound => self.phase is RoundEnd ==> self.players.len() > 0
                && self.dealer_idx < self.players.len() && (alive_indices(
                cleared_hands(self.players),
            ).len() != 1 ==> self.between_rounds().can_start_round()),
        }
    }

    /// What an action does, from a game whose event log was just emptied.
    pub open spec fn act_step(
        self,
        post: GameModel,
        id: PlayerId,
        action: Action,
        r: Result<(), GameError>,
    ) -> bool {
        match action {
            Action::StartGame { lives, blocker_tokens, exemption_tokens } => self.start_step(
                post,
                lives,
                blocker_tokens,
                exemption_tokens,
                r,
            ),
            Action::Pass => post == self.pass_step(id).0 && r == self.pass_step(id).1,
            Action::Trade => post == self.trade_step(id).0 && r == self.trade_step(id).1,
            Action::Block => post == self.block_step(id).0 && r == self.block_step(id).1,
            Action::AcceptTrade => post == self.accept_step(id).0 && r == self.accept_step(id).1,
            Action::DealerPass => post == self.dealer_pass_step(id).0 && r
                == self.dealer_pass_step(id).1,
            Action::TakeOffTop => post == self.take_off_top_step(id).0 && r
                == self.take_off_top_step(id).1,
            Action::CowboyVote { exempt } => post == self.vote_step(id, exempt).0 && r
                == self.vote_step(id, exempt).1,
            Action::ResolveCowboyVote => post == self.resolve_step().0 && r
                == self.resolve_step().1,
            Action::NextRound => self.next_round_step(post, r),
        }
    }

    /// Who is expected to act: the player on turn, the target of a proposed trade, or the
    /// dealer; nobody in the other phases.
    pub open spec fn actor(self) -> Option<PlayerId> {
        match self.phase {
            PhaseModel::NormalTurn { current_idx } => Some(self.seat_id(current_idx as int)),
            PhaseModel::WaitingForBlock { target_idx, .. } => Some(self.seat_id(target_idx as int)),
            PhaseModel::DealerTurn => Some(self.seat_id(self.alive_order.len() - 1)),
            _ => None,
        }
    }

    /// Where the actor can be read off the order of play.
    pub open spec fn can_name_actor(self) -> bool {
        &&& self.order_in_range()
        &&& self.phase matches PhaseModel::NormalTurn { current_idx } ==> current_idx
            < self.alive_order.len()
        &&& self.phase matches PhaseModel::WaitingForBlock { target_idx, .. } ==> target_idx
            < self.alive_order.len()
        &&& self.phase is DealerTurn ==> self.alive_order.len() > 0
    }

    /// In a cowboy vote, every player of the order of play has voted.
    pub open spec fn all_voted(self) -> bool {
        self.phase matches PhaseModel::CowboyVote { votes } && forall|k: int|
            0 <= k < self.alive_order.len() ==> voted(votes, #[trigger] self.seat_id(k))
    }

}

} // verus!
