use cowboy::card::{Card, Rank, Suit};
use cowboy::game::{Action, Game, GameError, GameEvent, Phase};

fn lobby_of(n: usize) -> Game {
    let mut game = Game::new();
    for i in 0..n {
        game.add_player(i as u64 + 1, format!("P{}", i + 1)).unwrap();
    }
    game
}

fn started(n: usize, lives: u8) -> Game {
    let mut game = lobby_of(n);
    game.act(0, Action::StartGame { lives, blocker_tokens: 1, exemption_tokens: 1 })
        .unwrap();
    game
}

#[test]
fn start_errors_and_dealer_in_range() {
    let mut game = lobby_of(1);
    let r = game.act(0, Action::StartGame { lives: 3, blocker_tokens: 1, exemption_tokens: 1 });
    assert_eq!(r, Err(GameError::NotEnoughPlayers));
    assert!(matches!(game.phase, Phase::Lobby));

    for _ in 0..50 {
        let game = started(5, 2);
        assert!(game.dealer_idx < 5);
        assert_eq!(game.round_number, 1);
        assert_eq!(game.original_player_count, 5);
        assert_eq!(game.alive_order.len(), 5);
        assert_eq!(*game.alive_order.last().unwrap(), game.dealer_idx);
        assert_eq!(game.deck.remaining(), 52 - 5);
    }

    let mut game = started(2, 2);
    let r = game.act(0, Action::StartGame { lives: 3, blocker_tokens: 1, exemption_tokens: 1 });
    assert_eq!(r, Err(GameError::NotInLobby));
    assert_eq!(game.add_player(9, "Late".to_string()), Err(GameError::NotInLobby));
}

#[test]
fn refused_action_changes_nothing() {
    let mut game = started(3, 3);
    game.phase = Phase::NormalTurn { current_idx: 0 };
    let hands: Vec<Option<Card>> = game.players.iter().map(|p| p.hand).collect();
    let wrong = game.players[game.alive_order[1]].id;
    assert_eq!(game.act(wrong, Action::Pass), Err(GameError::NotYourTurn(wrong)));
    assert!(game.events.is_empty());
    assert_eq!(game.phase, Phase::NormalTurn { current_idx: 0 });
    let after: Vec<Option<Card>> = game.players.iter().map(|p| p.hand).collect();
    assert_eq!(hands, after);
    assert_eq!(game.act(wrong, Action::Block), Err(GameError::InvalidAction));
    assert_eq!(game.act(wrong, Action::DealerPass), Err(GameError::InvalidAction));
    assert_eq!(game.act(wrong, Action::ResolveCowboyVote), Err(GameError::InvalidAction));
    assert_eq!(game.act(wrong, Action::NextRound), Err(GameError::InvalidAction));
}

#[test]
fn vote_errors() {
    let mut game = started(3, 3);
    game.is_cowboy_round = true;
    game.phase = Phase::CowboyVote { votes: Vec::new() };
    assert_eq!(
        game.act(77, Action::CowboyVote { exempt: false }),
        Err(GameError::PlayerNotFound(77))
    );
    let idx = game.alive_order[0];
    let id = game.players[idx].id;
    game.players[idx].lives = 0;
    game.players[idx].is_eliminated = true;
    assert_eq!(
        game.act(id, Action::CowboyVote { exempt: false }),
        Err(GameError::PlayerEliminated(id))
    );
    let idx2 = game.alive_order[1];
    let id2 = game.players[idx2].id;
    game.players[idx2].exemption_tokens = 0;
    assert_eq!(
        game.act(id2, Action::CowboyVote { exempt: true }),
        Err(GameError::NoExemptionToken(id2))
    );
    assert_eq!(game.act(id2, Action::CowboyVote { exempt: false }), Ok(()));
    assert_eq!(game.act(id2, Action::CowboyVote { exempt: false }), Err(GameError::InvalidAction));
    assert_eq!(game.phase, Phase::CowboyVote { votes: vec![(id2, false)] });
}

#[test]
fn block_without_token_is_refused() {
    let mut game = started(3, 3);
    game.phase = Phase::WaitingForBlock { trader_idx: 0, target_idx: 1 };
    let target = game.alive_order[1];
    game.players[target].blocker_tokens = 0;
    let id = game.players[target].id;
    assert_eq!(game.act(id, Action::Block), Err(GameError::NoBlockerToken(id)));
}

#[test]
fn alive_order_goes_round_from_the_dealer() {
    let mut game = started(4, 3);
    game.dealer_idx = 1;
    game.players[2].lives = 0;
    game.players[2].is_eliminated = true;
    assert_eq!(game.compute_alive_order(), vec![3, 0, 1]);
    game.dealer_idx = 2;
    assert_eq!(game.compute_alive_order(), vec![3, 0, 1]);
    assert_eq!(game.alive_count(), 3);
    let ids: Vec<u64> = game.alive_players().iter().map(|p| p.id).collect();
    assert_eq!(ids, vec![1, 2, 4]);
}

#[test]
fn current_actor_follows_the_phase() {
    let mut game = started(3, 3);
    let a = game.players[game.alive_order[0]].id;
    let b = game.players[game.alive_order[1]].id;
    let d = game.players[game.alive_order[2]].id;
    game.phase = Phase::NormalTurn { current_idx: 0 };
    assert_eq!(game.current_actor(), Some(a));
    game.phase = Phase::WaitingForBlock { trader_idx: 0, target_idx: 1 };
    assert_eq!(game.current_actor(), Some(b));
    game.phase = Phase::DealerTurn;
    assert_eq!(game.current_actor(), Some(d));
    game.phase = Phase::RoundEnd;
    assert_eq!(game.current_actor(), None);
}

#[test]
fn all_votes_in_only_when_everyone_voted() {
    let mut game = started(3, 3);
    assert!(!game.all_cowboy_votes_in() || matches!(game.phase, Phase::CowboyVote { .. }));
    game.is_cowboy_round = true;
    game.phase = Phase::CowboyVote { votes: Vec::new() };
    let ids: Vec<u64> = game.alive_order.iter().map(|&i| game.players[i].id).collect();
    assert!(!game.all_cowboy_votes_in());
    game.act(ids[0], Action::CowboyVote { exempt: false }).unwrap();
    game.act(ids[1], Action::CowboyVote { exempt: true }).unwrap();
    assert!(!game.all_cowboy_votes_in());
    game.act(ids[2], Action::CowboyVote { exempt: false }).unwrap();
    assert!(game.all_cowboy_votes_in());
    game.phase = Phase::RoundEnd;
    assert!(!game.all_cowboy_votes_in());
}

#[test]
fn showdown_events_and_elimination() {
    let mut game = started(3, 1);
    let i0 = game.alive_order[0];
    let i1 = game.alive_order[1];
    let i2 = game.alive_order[2];
    game.players[i0].hand = Some(Card::new(Rank::Three, Suit::Hearts));
    game.players[i1].hand = Some(Card::new(Rank::Nine, Suit::Hearts));
    game.players[i2].hand = Some(Card::new(Rank::Three, Suit::Clubs));
    game.is_cowboy_round = false;
    game.phase = Phase::DealerTurn;
    let dealer = game.players[i2].id;
    game.act(dealer, Action::DealerPass).unwrap();
    let events = game.take_events();
    assert!(game.events.is_empty());
    let id0 = game.players[i0].id;
    let id1 = game.players[i1].id;
    let mut saw_result = false;
    let mut eliminated = Vec::new();
    for e in &events {
        match e {
            GameEvent::ShowdownResult { reveals, losers, is_cowboy_round } => {
                saw_result = true;
                assert!(!is_cowboy_round);
                assert_eq!(reveals.len(), 3);
                assert_eq!(losers, &vec![id0, dealer]);
            }
            GameEvent::PlayerEliminated { player_id } => eliminated.push(*player_id),
            _ => {}
        }
    }
    assert!(saw_result);
    assert_eq!(eliminated, vec![id0, dealer]);
    assert!(game.players[i1].is_alive());
    // The lone survivor wins.
    game.act(0, Action::NextRound).unwrap();
    assert_eq!(game.phase, Phase::GameOver { winner: Some(id1) });
    assert!(game.players.iter().all(|p| p.hand.is_none()));
}

#[test]
fn dealer_draws_ordinary_card_then_showdown() {
    let mut game = started(3, 3);
    let i0 = game.alive_order[0];
    let i1 = game.alive_order[1];
    let i2 = game.alive_order[2];
    game.players[i0].hand = Some(Card::new(Rank::Five, Suit::Hearts));
    game.players[i1].hand = Some(Card::new(Rank::Six, Suit::Hearts));
    game.players[i2].hand = Some(Card::new(Rank::Ace, Suit::Clubs));
    game.is_cowboy_round = false;
    game.phase = Phase::DealerTurn;
    while game.deck.deal_one().is_some() {}
    game.deck.push(Card::new(Rank::Two, Suit::Spades));
    let dealer = game.players[i2].id;
    game.act(dealer, Action::TakeOffTop).unwrap();
    assert_eq!(game.deck.remaining(), 0);
    assert_eq!(game.players[i2].hand, Some(Card::new(Rank::Two, Suit::Spades)));
    assert_eq!(game.phase, Phase::RoundEnd);
    // The drawn Two is now the lowest card on the table.
    assert_eq!(game.players[i2].lives, 2);
    assert_eq!(game.players[i0].lives, 3);
}

#[test]
fn cowboy_round_uses_cowboy_values() {
    let mut game = started(3, 3);
    let i0 = game.alive_order[0];
    let i1 = game.alive_order[1];
    let i2 = game.alive_order[2];
    game.players[i0].hand = Some(Card::new(Rank::Ace, Suit::Hearts));
    game.players[i1].hand = Some(Card::new(Rank::King, Suit::Hearts));
    game.players[i2].hand = Some(Card::new(Rank::Two, Suit::Clubs));
    game.is_cowboy_round = true;
    game.exempted.clear();
    game.phase = Phase::CowboyVote { votes: Vec::new() };
    for &i in &game.alive_order.clone() {
        let id = game.players[i].id;
        game.act(id, Action::CowboyVote { exempt: false }).unwrap();
    }
    game.act(0, Action::ResolveCowboyVote).unwrap();
    assert_eq!(game.players[i0].lives, 3);
    assert_eq!(game.players[i1].lives, 3);
    assert_eq!(game.players[i2].lives, 2);
    assert_eq!(game.players[i0].exemption_tokens, 1);
}

#[test]
fn no_king_in_play_while_trading() {
    for _ in 0..50 {
        let mut game = Game::new();
        for id in 1..=6u64 {
            game.add_player(id, format!("P{id}")).unwrap();
        }
        game.act(0, Action::StartGame { lives: 3, blocker_tokens: 1, exemption_tokens: 1 })
            .unwrap();
        if matches!(game.phase, Phase::NormalTurn { .. } | Phase::DealerTurn) {
            for &seat in &game.alive_order {
                let card = game.players[seat].hand.unwrap();
                assert!(!card.is_king());
            }
        } else {
            assert!(matches!(game.phase, Phase::CowboyVote { .. }));
            assert!(game.is_cowboy_round);
        }
    }
}

#[test]
fn tokens_never_grow_during_play() {
    let mut game = Game::new();
    for id in 1..=4u64 {
        game.add_player(id, format!("P{id}")).unwrap();
    }
    game.act(0, Action::StartGame { lives: 2, blocker_tokens: 1, exemption_tokens: 1 }).unwrap();
    let before: Vec<(u8, u8)> =
        game.players.iter().map(|p| (p.blocker_tokens, p.exemption_tokens)).collect();
    // Everyone passes or keeps their card; nothing is spent or gained.
    for _ in 0..10 {
        let actor = match game.current_actor() {
            Some(a) => a,
            None => break,
        };
        let action = if matches!(game.phase, Phase::DealerTurn) { Action::DealerPass } else { Action::Pass };
        game.act(actor, action).unwrap();
    }
    for (p, (b, e)) in game.players.iter().zip(before) {
        assert!(p.blocker_tokens <= b && p.exemption_tokens <= e);
    }
}

#[test]
fn repeated_ids_play_a_round() {
    let mut game = Game::new();
    game.add_player(1, "A".to_string()).unwrap();
    game.add_player(1, "B".to_string()).unwrap();
    game.add_player(2, "C".to_string()).unwrap();
    game.act(0, Action::StartGame { lives: 3, blocker_tokens: 0, exemption_tokens: 1 }).unwrap();
    for _ in 0..10 {
        match game.phase {
            Phase::RoundEnd => break,
            Phase::CowboyVote { .. } => game.act(0, Action::ResolveCowboyVote).unwrap(),
            Phase::DealerTurn => {
                let d = game.current_actor().unwrap();
                game.act(d, Action::DealerPass).unwrap()
            }
            _ => {
                let a = game.current_actor().unwrap();
                game.act(a, Action::Pass).unwrap()
            }
        }
    }
    assert!(matches!(game.phase, Phase::RoundEnd));
    // Only first seats of an id ever lose a life: the second seat with id 1 keeps all three.
    assert_eq!(game.players[1].lives, 3);
}
