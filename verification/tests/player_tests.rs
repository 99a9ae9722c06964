use cowboy::card::{Card, Rank, Suit};
use cowboy::player::Player;

fn make_player() -> Player {
    Player::new(1, "Test".to_string(), 3, 1, 1)
}

#[test]
fn new_player_is_alive() {
    let p = make_player();
    assert!(p.is_alive());
    assert_eq!(p.lives, 3);
}

#[test]
fn lose_life_decrements() {
    let mut p = make_player();
    p.lose_life();
    assert_eq!(p.lives, 2);
    assert!(p.is_alive());
}

#[test]
fn lose_all_lives_eliminates() {
    let mut p = make_player();
    p.lose_life();
    p.lose_life();
    p.lose_life();
    assert_eq!(p.lives, 0);
    assert!(p.is_eliminated);
    assert!(!p.is_alive());
}

#[test]
fn use_blocker_decrements() {
    let mut p = make_player();
    assert!(p.can_block());
    p.use_blocker();
    assert!(!p.can_block());
}

#[test]
fn use_exemption_decrements() {
    let mut p = make_player();
    assert!(p.can_exempt());
    p.use_exemption();
    assert!(!p.can_exempt());
}

#[test]
fn resurrect_gives_one_life_no_tokens() {
    let mut p = make_player();
    p.use_blocker();
    p.use_exemption();
    p.lose_life();
    p.lose_life();
    p.lose_life();
    assert!(p.is_eliminated);

    p.resurrect();
    assert!(p.is_alive());
    assert_eq!(p.lives, 1);
    assert_eq!(p.exemption_tokens, 0);
    assert_eq!(p.blocker_tokens, 0);
}

#[test]
fn no_hand_by_default() {
    let p = make_player();
    assert!(p.hand.is_none());
}

#[test]
fn lose_life_at_zero_stays_at_zero() {
    let mut p = Player::new(2, "Zero".to_string(), 0, 0, 0);
    p.lose_life();
    assert_eq!(p.lives, 0);
    assert!(p.is_eliminated);
}

#[test]
fn resurrect_drops_unused_tokens() {
    let mut p = Player::new(3, "Saver".to_string(), 1, 2, 2);
    p.hand = Some(Card::new(Rank::Four, Suit::Spades));
    p.lose_life();
    assert!(!p.is_alive());
    p.resurrect();
    assert!(p.is_alive());
    assert_eq!(p.lives, 1);
    assert_eq!(p.exemption_tokens, 0);
    assert_eq!(p.blocker_tokens, 0);
    assert_eq!(p.hand, Some(Card::new(Rank::Four, Suit::Spades)));
}
