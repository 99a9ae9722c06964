use cowboy::card::{Card, Rank, Suit};
use cowboy::game::{Action, Game, GameEvent, Phase};

/// Helper to create a game with N players in lobby.
fn setup_lobby(n: usize) -> Game {
    let mut game = Game::new();
    for i in 0..n {
        game.add_player(i as u64 + 1, format!("Player{}", i + 1))
            .unwrap();
    }
    game
}

/// Helper to start a game with default settings.
fn start_default(game: &mut Game) {
    game.act(
        0,
        Action::StartGame {
            lives: 3,
            blocker_tokens: 1,
            exemption_tokens: 1,
        },
    )
    .unwrap();
}

#[test]
fn cannot_start_with_one_player() {
    let mut game = setup_lobby(1);
    let result = game.act(
        0,
        Action::StartGame {
            lives: 3,
            blocker_tokens: 1,
            exemption_tokens: 1,
        },
    );
    assert!(result.is_err());
}

#[test]
fn cannot_add_player_after_start() {
    let mut game = setup_lobby(3);
    start_default(&mut game);
    let result = game.add_player(99, "Late".to_string());
    assert!(result.is_err());
}

#[test]
fn game_starts_and_deals_cards() {
    let mut game = setup_lobby(4);
    start_default(&mut game);

    // All alive players should have a card
    for player in &game.players {
        assert!(player.hand.is_some());
        assert_eq!(player.lives, 3);
    }

    // Phase should be either KingCheck resolved to NormalTurn/CowboyVote
    assert!(
        matches!(game.phase, Phase::NormalTurn { .. })
            || matches!(game.phase, Phase::CowboyVote { .. })
            || matches!(game.phase, Phase::DealerTurn)
    );
}

#[test]
fn one_life_removes_exemption_tokens() {
    let mut game = setup_lobby(3);
    game.act(
        0,
        Action::StartGame {
            lives: 1,
            blocker_tokens: 1,
            exemption_tokens: 1,
        },
    )
    .unwrap();

    for player in &game.players {
        assert_eq!(player.exemption_tokens, 0);
        assert_eq!(player.lives, 1);
    }
}

#[test]
fn normal_round_pass_advances_turn() {
    let mut game = setup_lobby(3);
    start_default(&mut game);

    // Force a normal round by rigging no kings
    for player in &mut game.players {
        player.hand = Some(Card::new(Rank::Five, Suit::Hearts));
    }
    game.is_cowboy_round = false;
    // Set to first player's turn
    game.phase = Phase::NormalTurn { current_idx: 0 };

    let first_player_id = game.players[game.alive_order[0]].id;
    let second_player_id = game.players[game.alive_order[1]].id;

    game.act(first_player_id, Action::Pass).unwrap();

    // Should now be second player's turn (or dealer turn if only 2 non-dealer)
    match &game.phase {
        Phase::NormalTurn { current_idx } => {
            let next_id = game.players[game.alive_order[*current_idx]].id;
            assert_eq!(next_id, second_player_id);
        }
        Phase::DealerTurn => {
            // If there were only 2 alive + dealer, second player IS dealer
            assert_eq!(
                second_player_id,
                game.players[*game.alive_order.last().unwrap()].id
            );
        }
        _ => panic!("Unexpected phase: {:?}", game.phase),
    }
}

#[test]
fn wrong_player_cannot_act() {
    let mut game = setup_lobby(3);
    start_default(&mut game);

    // Rig normal round
    for player in &mut game.players {
        player.hand = Some(Card::new(Rank::Five, Suit::Hearts));
    }
    game.is_cowboy_round = false;
    game.phase = Phase::NormalTurn { current_idx: 0 };

    let wrong_player_id = game.players[game.alive_order[1]].id;
    let result = game.act(wrong_player_id, Action::Pass);
    assert!(result.is_err());
}

#[test]
fn trade_without_blocker_auto_completes() {
    let mut game = setup_lobby(3);
    start_default(&mut game);

    // Remove all blocker tokens
    for player in &mut game.players {
        player.blocker_tokens = 0;
    }

    // Rig hands for a normal round
    let card_a = Card::new(Rank::Two, Suit::Hearts);
    let card_b = Card::new(Rank::Queen, Suit::Spades);
    let card_c = Card::new(Rank::Five, Suit::Clubs);

    let idx_0 = game.alive_order[0];
    let idx_1 = game.alive_order[1];
    let idx_2 = game.alive_order[2]; // dealer

    game.players[idx_0].hand = Some(card_a);
    game.players[idx_1].hand = Some(card_b);
    game.players[idx_2].hand = Some(card_c);
    game.is_cowboy_round = false;
    game.phase = Phase::NormalTurn { current_idx: 0 };

    let trader_id = game.players[idx_0].id;
    game.act(trader_id, Action::Trade).unwrap();

    // Cards should have swapped
    assert_eq!(game.players[idx_0].hand.unwrap().rank, Rank::Queen);
    assert_eq!(game.players[idx_1].hand.unwrap().rank, Rank::Two);
}

#[test]
fn trade_with_blocker_goes_to_waiting() {
    let mut game = setup_lobby(3);
    start_default(&mut game);

    // Rig normal round
    for player in &mut game.players {
        player.hand = Some(Card::new(Rank::Five, Suit::Hearts));
        player.blocker_tokens = 1;
    }
    game.is_cowboy_round = false;
    game.phase = Phase::NormalTurn { current_idx: 0 };

    let trader_id = game.players[game.alive_order[0]].id;
    game.act(trader_id, Action::Trade).unwrap();

    assert!(matches!(game.phase, Phase::WaitingForBlock { .. }));
}

#[test]
fn block_cancels_trade() {
    let mut game = setup_lobby(3);
    start_default(&mut game);

    let card_a = Card::new(Rank::Two, Suit::Hearts);
    let card_b = Card::new(Rank::Queen, Suit::Spades);

    let idx_0 = game.alive_order[0];
    let idx_1 = game.alive_order[1];

    game.players[idx_0].hand = Some(card_a);
    game.players[idx_1].hand = Some(card_b);
    game.players[idx_1].blocker_tokens = 1;
    game.is_cowboy_round = false;
    game.phase = Phase::NormalTurn { current_idx: 0 };

    let trader_id = game.players[idx_0].id;
    let blocker_id = game.players[idx_1].id;

    game.act(trader_id, Action::Trade).unwrap();
    assert!(matches!(game.phase, Phase::WaitingForBlock { .. }));

    game.act(blocker_id, Action::Block).unwrap();

    // Cards should NOT have swapped
    assert_eq!(game.players[idx_0].hand.unwrap().rank, Rank::Two);
    assert_eq!(game.players[idx_1].hand.unwrap().rank, Rank::Queen);
    assert_eq!(game.players[idx_1].blocker_tokens, 0);
}

#[test]
fn accept_trade_swaps_cards() {
    let mut game = setup_lobby(3);
    start_default(&mut game);

    let card_a = Card::new(Rank::Two, Suit::Hearts);
    let card_b = Card::new(Rank::Queen, Suit::Spades);

    let idx_0 = game.alive_order[0];
    let idx_1 = game.alive_order[1];

    game.players[idx_0].hand = Some(card_a);
    game.players[idx_1].hand = Some(card_b);
    game.players[idx_1].blocker_tokens = 1;
    game.is_cowboy_round = false;
    game.phase = Phase::NormalTurn { current_idx: 0 };

    let trader_id = game.players[idx_0].id;
    let target_id = game.players[idx_1].id;

    game.act(trader_id, Action::Trade).unwrap();
    game.act(target_id, Action::AcceptTrade).unwrap();

    assert_eq!(game.players[idx_0].hand.unwrap().rank, Rank::Queen);
    assert_eq!(game.players[idx_1].hand.unwrap().rank, Rank::Two);
}

#[test]
fn dealer_pass_triggers_showdown() {
    let mut game = setup_lobby(3);
    start_default(&mut game);

    // Rig normal round
    let idx_0 = game.alive_order[0];
    let idx_1 = game.alive_order[1];
    let idx_2 = game.alive_order[2];

    game.players[idx_0].hand = Some(Card::new(Rank::Queen, Suit::Hearts));
    game.players[idx_1].hand = Some(Card::new(Rank::Five, Suit::Spades));
    game.players[idx_2].hand = Some(Card::new(Rank::Ace, Suit::Clubs));
    game.is_cowboy_round = false;
    game.phase = Phase::DealerTurn;

    let dealer_id = game.players[idx_2].id;
    game.act(dealer_id, Action::DealerPass).unwrap();

    assert_eq!(game.phase, Phase::RoundEnd);

    // idx_2 (dealer) has Ace, which is lowest in normal mode
    assert_eq!(game.players[idx_2].lives, 2);
    assert_eq!(game.players[idx_0].lives, 3);
    assert_eq!(game.players[idx_1].lives, 3);
}

#[test]
fn cowboy_vote_exempt_saves_player() {
    let mut game = setup_lobby(3);
    start_default(&mut game);

    let idx_0 = game.alive_order[0];
    let idx_1 = game.alive_order[1];
    let idx_2 = game.alive_order[2];

    // Player 0 has king, others have low cards
    game.players[idx_0].hand = Some(Card::new(Rank::King, Suit::Spades));
    game.players[idx_1].hand = Some(Card::new(Rank::Two, Suit::Hearts));
    game.players[idx_2].hand = Some(Card::new(Rank::Five, Suit::Clubs));
    game.is_cowboy_round = true;
    game.phase = Phase::CowboyVote { votes: Vec::new() };
    game.exempted.clear();

    let id_0 = game.players[idx_0].id;
    let id_1 = game.players[idx_1].id;
    let id_2 = game.players[idx_2].id;

    // Player 1 exempts (has token), player 0 and 2 stay in
    game.act(id_1, Action::CowboyVote { exempt: true }).unwrap();
    game.act(id_0, Action::CowboyVote { exempt: false })
        .unwrap();
    game.act(id_2, Action::CowboyVote { exempt: false })
        .unwrap();
    game.act(0, Action::ResolveCowboyVote).unwrap();

    // Showdown: in cowboy mode, 2 is lowest.
    // Active: idx_0 (King=11), idx_2 (Five=3). idx_2 has lowest.
    assert_eq!(game.phase, Phase::RoundEnd);
    assert_eq!(game.players[idx_2].lives, 2); // lost a life
    assert_eq!(game.players[idx_0].lives, 3); // king holder safe
    assert_eq!(game.players[idx_1].lives, 3); // exempted, safe
}

#[test]
fn lone_cowboy_rule() {
    let mut game = setup_lobby(3);
    start_default(&mut game);

    let idx_0 = game.alive_order[0];
    let idx_1 = game.alive_order[1];
    let idx_2 = game.alive_order[2];

    game.players[idx_0].hand = Some(Card::new(Rank::King, Suit::Spades));
    game.players[idx_1].hand = Some(Card::new(Rank::Two, Suit::Hearts));
    game.players[idx_2].hand = Some(Card::new(Rank::Five, Suit::Clubs));
    game.is_cowboy_round = true;
    game.phase = Phase::CowboyVote { votes: Vec::new() };
    game.exempted.clear();

    let id_0 = game.players[idx_0].id;
    let id_1 = game.players[idx_1].id;
    let id_2 = game.players[idx_2].id;

    // Everyone exempts except the king holder
    game.act(id_1, Action::CowboyVote { exempt: true }).unwrap();
    game.act(id_2, Action::CowboyVote { exempt: true }).unwrap();
    game.act(id_0, Action::CowboyVote { exempt: false })
        .unwrap();
    game.act(0, Action::ResolveCowboyVote).unwrap();

    // King is the only active card -- it's the lowest by default
    assert_eq!(game.phase, Phase::RoundEnd);
    assert_eq!(game.players[idx_0].lives, 2); // king holder loses!
    assert_eq!(game.players[idx_1].lives, 3); // safe
    assert_eq!(game.players[idx_2].lives, 3); // safe
}

#[test]
fn everyone_exempts_no_one_loses() {
    let mut game = setup_lobby(3);
    start_default(&mut game);

    let idx_0 = game.alive_order[0];
    let idx_1 = game.alive_order[1];
    let idx_2 = game.alive_order[2];

    game.players[idx_0].hand = Some(Card::new(Rank::King, Suit::Spades));
    game.players[idx_1].hand = Some(Card::new(Rank::Two, Suit::Hearts));
    game.players[idx_2].hand = Some(Card::new(Rank::Five, Suit::Clubs));
    game.is_cowboy_round = true;
    game.phase = Phase::CowboyVote { votes: Vec::new() };
    game.exempted.clear();

    // Give everyone exemption tokens
    for p in &mut game.players {
        p.exemption_tokens = 1;
    }

    let id_0 = game.players[idx_0].id;
    let id_1 = game.players[idx_1].id;
    let id_2 = game.players[idx_2].id;

    game.act(id_0, Action::CowboyVote { exempt: true }).unwrap();
    game.act(id_1, Action::CowboyVote { exempt: true }).unwrap();
    game.act(id_2, Action::CowboyVote { exempt: true }).unwrap();
    game.act(0, Action::ResolveCowboyVote).unwrap();

    assert_eq!(game.phase, Phase::RoundEnd);
    // No one lost a life
    for p in &game.players {
        assert_eq!(p.lives, 3);
    }
}

#[test]
fn elimination_and_game_over() {
    let mut game = setup_lobby(2);
    game.act(
        0,
        Action::StartGame {
            lives: 1,
            blocker_tokens: 0,
            exemption_tokens: 0,
        },
    )
    .unwrap();

    let idx_0 = game.alive_order[0];
    let idx_1 = game.alive_order[1];

    // Rig: player 0 has Ace (lowest), player 1 has Queen (highest)
    game.players[idx_0].hand = Some(Card::new(Rank::Ace, Suit::Hearts));
    game.players[idx_1].hand = Some(Card::new(Rank::Queen, Suit::Spades));
    game.is_cowboy_round = false;
    game.phase = Phase::DealerTurn;

    let dealer_id = game.players[*game.alive_order.last().unwrap()].id;
    game.act(dealer_id, Action::DealerPass).unwrap();

    // The player with Ace should be eliminated
    let ace_holder = &game.players[idx_0];
    assert!(!ace_holder.is_alive());

    game.act(0, Action::NextRound).unwrap();

    // Game should be over
    assert!(matches!(game.phase, Phase::GameOver { .. }));
}

#[test]
fn resurrection_when_all_die() {
    let mut game = setup_lobby(2);
    game.act(
        0,
        Action::StartGame {
            lives: 1,
            blocker_tokens: 0,
            exemption_tokens: 0,
        },
    )
    .unwrap();

    let idx_0 = game.alive_order[0];
    let idx_1 = game.alive_order[1];

    // Both have the same card -- they both lose
    game.players[idx_0].hand = Some(Card::new(Rank::Five, Suit::Hearts));
    game.players[idx_1].hand = Some(Card::new(Rank::Five, Suit::Spades));
    game.is_cowboy_round = false;
    game.phase = Phase::DealerTurn;

    let dealer_id = game.players[*game.alive_order.last().unwrap()].id;
    game.act(dealer_id, Action::DealerPass).unwrap();

    // Both should have lost their life
    assert_eq!(game.players[idx_0].lives, 0);
    assert_eq!(game.players[idx_1].lives, 0);

    game.act(0, Action::NextRound).unwrap();

    // Resurrection! Both should be back with 1 life
    let events = game.take_events();
    assert!(
        events
            .iter()
            .any(|e| matches!(e, GameEvent::ResurrectionTriggered))
    );

    for player in &game.players {
        assert!(player.is_alive());
        assert_eq!(player.lives, 1);
        assert_eq!(player.exemption_tokens, 0);
        assert_eq!(player.blocker_tokens, 0);
    }
}

#[test]
fn multiple_losers_with_tied_lowest() {
    let mut game = setup_lobby(4);
    start_default(&mut game);

    let idx_0 = game.alive_order[0];
    let idx_1 = game.alive_order[1];
    let idx_2 = game.alive_order[2];
    let idx_3 = game.alive_order[3];

    // Two players tie for lowest
    game.players[idx_0].hand = Some(Card::new(Rank::Ace, Suit::Hearts));
    game.players[idx_1].hand = Some(Card::new(Rank::Ace, Suit::Spades));
    game.players[idx_2].hand = Some(Card::new(Rank::Queen, Suit::Clubs));
    game.players[idx_3].hand = Some(Card::new(Rank::Jack, Suit::Diamonds));
    game.is_cowboy_round = false;
    game.phase = Phase::DealerTurn;

    let dealer_id = game.players[*game.alive_order.last().unwrap()].id;
    game.act(dealer_id, Action::DealerPass).unwrap();

    // Both Ace holders should lose a life
    assert_eq!(game.players[idx_0].lives, 2);
    assert_eq!(game.players[idx_1].lives, 2);
    assert_eq!(game.players[idx_2].lives, 3);
    assert_eq!(game.players[idx_3].lives, 3);
}

#[test]
fn cannot_exempt_without_token() {
    let mut game = setup_lobby(3);
    start_default(&mut game);

    let idx_0 = game.alive_order[0];
    game.players[idx_0].exemption_tokens = 0;
    game.is_cowboy_round = true;
    game.phase = Phase::CowboyVote { votes: Vec::new() };

    let id_0 = game.players[idx_0].id;
    let result = game.act(id_0, Action::CowboyVote { exempt: true });
    assert!(result.is_err());
}

#[test]
fn cannot_vote_twice() {
    let mut game = setup_lobby(3);
    start_default(&mut game);

    for p in &mut game.players {
        p.exemption_tokens = 1;
    }
    game.is_cowboy_round = true;
    game.phase = Phase::CowboyVote { votes: Vec::new() };

    let id_0 = game.players[game.alive_order[0]].id;
    game.act(id_0, Action::CowboyVote { exempt: false })
        .unwrap();
    let result = game.act(id_0, Action::CowboyVote { exempt: false });
    assert!(result.is_err());
}

#[test]
fn dealer_draw_king_forces_cowboy_round() {
    // Deterministic test: make deck cards accessible
    let mut game = setup_lobby(3);
    start_default(&mut game);

    let idx_0 = game.alive_order[0];
    let idx_1 = game.alive_order[1];
    let idx_2 = game.alive_order[2];

    game.players[idx_0].hand = Some(Card::new(Rank::Five, Suit::Hearts));
    game.players[idx_1].hand = Some(Card::new(Rank::Jack, Suit::Spades));
    game.players[idx_2].hand = Some(Card::new(Rank::Three, Suit::Clubs));
    game.is_cowboy_round = false;
    game.phase = Phase::DealerTurn;

    // Drain the deck and put only a King in it
    while game.deck.deal_one().is_some() {}
    game.deck.push(Card::new(Rank::King, Suit::Diamonds));

    let dealer_id = game.players[idx_2].id;
    game.act(dealer_id, Action::TakeOffTop).unwrap();

    assert!(game.is_cowboy_round);
    assert!(matches!(game.phase, Phase::CowboyVote { .. }));
    assert_eq!(game.players[idx_2].hand.unwrap().rank, Rank::King);
}

#[test]
fn full_game_two_rounds() {
    // Play a 3-player game through 2 rounds
    let mut game = setup_lobby(3);
    game.act(
        0,
        Action::StartGame {
            lives: 2,
            blocker_tokens: 0,
            exemption_tokens: 0,
        },
    )
    .unwrap();

    // Round 1: rig a normal round
    let idx_0 = game.alive_order[0];
    let idx_1 = game.alive_order[1];
    let idx_2 = game.alive_order[2];

    game.players[idx_0].hand = Some(Card::new(Rank::Queen, Suit::Hearts));
    game.players[idx_1].hand = Some(Card::new(Rank::Jack, Suit::Spades));
    game.players[idx_2].hand = Some(Card::new(Rank::Ace, Suit::Clubs));
    game.is_cowboy_round = false;

    // All pass to dealer
    game.phase = Phase::NormalTurn { current_idx: 0 };
    let id_0 = game.players[idx_0].id;
    let id_1 = game.players[idx_1].id;
    let id_2 = game.players[idx_2].id;

    game.act(id_0, Action::Pass).unwrap();
    // After player 0 passes, it should be player 1's turn or dealer
    if matches!(game.phase, Phase::NormalTurn { .. }) {
        game.act(id_1, Action::Pass).unwrap();
    }
    // Now dealer's turn
    assert_eq!(game.phase, Phase::DealerTurn);

    // Dealer draws, but let's just have them pass
    game.act(id_2, Action::DealerPass).unwrap();
    assert_eq!(game.phase, Phase::RoundEnd);

    // Ace holder lost a life
    assert_eq!(game.players[idx_2].lives, 1);

    // Advance to round 2
    game.act(0, Action::NextRound).unwrap();
    assert_eq!(game.round_number, 2);

    // Should be in a new round
    assert!(
        matches!(game.phase, Phase::NormalTurn { .. })
            || matches!(game.phase, Phase::CowboyVote { .. })
            || matches!(game.phase, Phase::DealerTurn)
    );
}

#[test]
fn resurrection_preserves_tokens_for_survivors() {
    // 4 players: P1 and P2 die early, P3 and P4 tie at the end.
    // P3 still has a blocker token. On resurrection, P3 keeps it, P1/P2 don't get tokens.
    let mut game = setup_lobby(4);
    game.act(
        0,
        Action::StartGame {
            lives: 2,
            blocker_tokens: 1,
            exemption_tokens: 1,
        },
    )
    .unwrap();

    // Eliminate players 1 and 2 manually (simulating prior rounds)
    // Find the actual player indices
    let p0_idx = 0;
    let p1_idx = 1;
    let p2_idx = 2;
    let p3_idx = 3;

    game.players[p0_idx].lives = 0;
    game.players[p0_idx].is_eliminated = true;
    game.players[p0_idx].blocker_tokens = 0;
    game.players[p0_idx].exemption_tokens = 0;

    game.players[p1_idx].lives = 0;
    game.players[p1_idx].is_eliminated = true;
    game.players[p1_idx].blocker_tokens = 0;
    game.players[p1_idx].exemption_tokens = 0;

    // P3 and P4 are alive with 1 life each, P3 has a blocker still
    game.players[p2_idx].lives = 1;
    game.players[p2_idx].blocker_tokens = 1;
    game.players[p2_idx].exemption_tokens = 0;

    game.players[p3_idx].lives = 1;
    game.players[p3_idx].blocker_tokens = 0;
    game.players[p3_idx].exemption_tokens = 1;

    // Set up round with just P3 and P4 alive
    game.dealer_idx = p2_idx;
    game.alive_order = game.compute_alive_order();

    // Rig a tie: both have a 5
    for &idx in &game.alive_order {
        game.players[idx].hand = Some(Card::new(Rank::Five, Suit::Hearts));
    }
    game.is_cowboy_round = false;
    game.phase = Phase::DealerTurn;

    let dealer_id = game.players[*game.alive_order.last().unwrap()].id;
    game.act(dealer_id, Action::DealerPass).unwrap();

    // Both died
    assert_eq!(game.players[p2_idx].lives, 0);
    assert_eq!(game.players[p3_idx].lives, 0);

    game.act(0, Action::NextRound).unwrap();

    // All 4 should be alive again
    for p in &game.players {
        assert!(p.is_alive());
        assert_eq!(p.lives, 1);
    }

    // P3 (idx 2) should keep their blocker token
    assert_eq!(game.players[p2_idx].blocker_tokens, 1);
    assert_eq!(game.players[p2_idx].exemption_tokens, 0);

    // P4 (idx 3) should keep their exemption token
    assert_eq!(game.players[p3_idx].exemption_tokens, 1);
    assert_eq!(game.players[p3_idx].blocker_tokens, 0);

    // P1 and P2 (previously eliminated) come back with 0 tokens
    assert_eq!(game.players[p0_idx].blocker_tokens, 0);
    assert_eq!(game.players[p0_idx].exemption_tokens, 0);
    assert_eq!(game.players[p1_idx].blocker_tokens, 0);
    assert_eq!(game.players[p1_idx].exemption_tokens, 0);
}

#[test]
fn cowboy_vote_default_for_missing_voters() {
    // Test that players who don't vote get auto-defaulted
    let mut game = setup_lobby(3);
    start_default(&mut game);

    let idx_0 = game.alive_order[0];
    let idx_1 = game.alive_order[1];
    let idx_2 = game.alive_order[2];

    game.players[idx_0].hand = Some(Card::new(Rank::King, Suit::Spades));
    game.players[idx_1].hand = Some(Card::new(Rank::Two, Suit::Hearts));
    game.players[idx_2].hand = Some(Card::new(Rank::Five, Suit::Clubs));
    game.is_cowboy_round = true;
    game.phase = Phase::CowboyVote { votes: Vec::new() };
    game.exempted.clear();

    let id_0 = game.players[idx_0].id;

    // Only player 0 votes. Player 1 and 2 don't vote (timed out).
    game.act(id_0, Action::CowboyVote { exempt: false })
        .unwrap();

    // Resolve: player 1 and 2 both have exemption tokens, so they auto-exempt
    game.act(0, Action::ResolveCowboyVote).unwrap();

    assert_eq!(game.phase, Phase::RoundEnd);
    // Player 0 (king) is the only active player -- lone cowboy rule
    assert_eq!(game.players[idx_0].lives, 2);
    // Player 1 and 2 auto-exempted, safe
    assert_eq!(game.players[idx_1].lives, 3);
    assert_eq!(game.players[idx_2].lives, 3);
}

#[test]
fn cowboy_vote_no_events_until_resolve() {
    let mut game = setup_lobby(3);
    start_default(&mut game);

    let idx_0 = game.alive_order[0];
    let idx_1 = game.alive_order[1];
    let idx_2 = game.alive_order[2];

    game.players[idx_0].hand = Some(Card::new(Rank::King, Suit::Spades));
    game.players[idx_1].hand = Some(Card::new(Rank::Two, Suit::Hearts));
    game.players[idx_2].hand = Some(Card::new(Rank::Five, Suit::Clubs));
    game.is_cowboy_round = true;
    game.phase = Phase::CowboyVote { votes: Vec::new() };
    game.exempted.clear();

    let id_0 = game.players[idx_0].id;
    let id_1 = game.players[idx_1].id;

    game.events.clear();
    game.act(id_0, Action::CowboyVote { exempt: false })
        .unwrap();
    // No events should have been emitted from staging
    assert!(game.events.is_empty());

    game.act(id_1, Action::CowboyVote { exempt: true }).unwrap();
    assert!(game.events.is_empty());

    // Only on resolve do events appear
    game.act(0, Action::ResolveCowboyVote).unwrap();
    assert!(!game.events.is_empty());
}

#[test]
fn dealer_chip_advances_after_round() {
    let mut game = setup_lobby(3);
    start_default(&mut game);

    let initial_dealer = game.dealer_idx;

    // Rig a quick normal round
    let idx_0 = game.alive_order[0];
    let idx_1 = game.alive_order[1];
    let idx_2 = game.alive_order[2];

    game.players[idx_0].hand = Some(Card::new(Rank::Queen, Suit::Hearts));
    game.players[idx_1].hand = Some(Card::new(Rank::Jack, Suit::Spades));
    game.players[idx_2].hand = Some(Card::new(Rank::Ace, Suit::Clubs));
    game.is_cowboy_round = false;
    game.phase = Phase::DealerTurn;

    let dealer_id = game.players[idx_2].id;
    game.act(dealer_id, Action::DealerPass).unwrap();
    game.act(0, Action::NextRound).unwrap();

    // Dealer should have advanced
    assert_ne!(game.dealer_idx, initial_dealer);
}
