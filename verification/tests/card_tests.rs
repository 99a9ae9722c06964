use cowboy::card::{Card, Deck, Rank, Suit};

#[test]
fn deck_has_52_cards() {
    let deck = Deck::new();
    assert_eq!(deck.remaining(), 52);
}

#[test]
fn deck_has_4_kings() {
    let deck = Deck::new();
    let kings = deck.cards().iter().filter(|c| c.is_king()).count();
    assert_eq!(kings, 4);
}

#[test]
fn deal_one_reduces_count() {
    let mut deck = Deck::new();
    deck.deal_one();
    assert_eq!(deck.remaining(), 51);
}

#[test]
fn deal_all_empties_deck() {
    let mut deck = Deck::new();
    for _ in 0..52 {
        assert!(deck.deal_one().is_some());
    }
    assert!(deck.deal_one().is_none());
    assert_eq!(deck.remaining(), 0);
}

#[test]
fn normal_ranking_ace_lowest_queen_highest() {
    assert_eq!(Rank::Ace.normal_value(), Some(0));
    assert_eq!(Rank::Queen.normal_value(), Some(11));
    assert_eq!(Rank::King.normal_value(), None);
    assert!(Rank::Ace.normal_value().unwrap() < Rank::Two.normal_value().unwrap());
    assert!(Rank::Jack.normal_value().unwrap() < Rank::Queen.normal_value().unwrap());
}

#[test]
fn cowboy_ranking_two_lowest_ace_highest() {
    assert_eq!(Rank::Two.cowboy_value(), 0);
    assert_eq!(Rank::Ace.cowboy_value(), 12);
    assert!(Rank::Two.cowboy_value() < Rank::Three.cowboy_value());
    assert!(Rank::King.cowboy_value() < Rank::Ace.cowboy_value());
}

#[test]
fn king_detection() {
    let king = Card::new(Rank::King, Suit::Spades);
    let ace = Card::new(Rank::Ace, Suit::Hearts);
    assert!(king.is_king());
    assert!(!ace.is_king());
}

#[test]
fn card_display() {
    let card = Card::new(Rank::Ace, Suit::Spades);
    assert_eq!(card.to_string(), "A♠");

    let card = Card::new(Rank::Ten, Suit::Hearts);
    assert_eq!(card.to_string(), "10♥");
}

#[test]
fn shuffle_changes_order() {
    let deck1 = Deck::new();
    let mut deck2 = Deck::new();
    deck2.shuffle();
    // Extremely unlikely to remain identical after shuffle
    assert_ne!(deck1.cards(), deck2.cards());
}

const ALL_RANKS: [Rank; 13] = [
    Rank::Ace,
    Rank::Two,
    Rank::Three,
    Rank::Four,
    Rank::Five,
    Rank::Six,
    Rank::Seven,
    Rank::Eight,
    Rank::Nine,
    Rank::Ten,
    Rank::Jack,
    Rank::Queen,
    Rank::King,
];

#[test]
fn every_rank_value() {
    let normal: Vec<Option<u8>> = ALL_RANKS.iter().map(|r| r.normal_value()).collect();
    let expected_normal: Vec<Option<u8>> =
        (0u8..12).map(Some).chain(std::iter::once(None)).collect();
    assert_eq!(normal, expected_normal);
    let cowboy: Vec<u8> = ALL_RANKS.iter().map(|r| r.cowboy_value()).collect();
    assert_eq!(cowboy, vec![12, 0, 1, 2, 3, 4, 5, 6, 7, 8, 9, 10, 11]);
}

#[test]
fn fresh_deck_order_and_uniqueness() {
    let deck = Deck::new();
    let cards = deck.cards();
    assert_eq!(cards[0], Card::new(Rank::Ace, Suit::Hearts));
    assert_eq!(cards[12], Card::new(Rank::King, Suit::Hearts));
    assert_eq!(cards[13], Card::new(Rank::Ace, Suit::Diamonds));
    assert_eq!(cards[51], Card::new(Rank::King, Suit::Spades));
    for i in 0..cards.len() {
        for j in (i + 1)..cards.len() {
            assert_ne!(cards[i], cards[j]);
        }
        assert_eq!(cards[i].is_king(), i % 13 == 12);
    }
}

#[test]
fn push_then_deal_gives_card_back() {
    let mut deck = Deck::new();
    deck.deal_one();
    let before: Vec<Card> = deck.cards().clone();
    let card = Card::new(Rank::Seven, Suit::Clubs);
    deck.push(card);
    assert_eq!(deck.remaining(), 52);
    assert_eq!(deck.deal_one(), Some(card));
    assert_eq!(deck.cards(), &before);
}

#[test]
fn shuffle_keeps_the_same_cards() {
    let mut deck = Deck::new();
    deck.shuffle();
    assert_eq!(deck.remaining(), 52);
    let mut seen = deck.cards().clone();
    let fresh = Deck::new();
    for c in fresh.cards() {
        let pos = seen.iter().position(|x| x == c).expect("card missing after shuffle");
        seen.remove(pos);
    }
    assert!(seen.is_empty());
}

#[test]
fn rank_and_suit_labels() {
    assert_eq!(Rank::Jack.to_string(), "J");
    assert_eq!(Rank::Ten.to_string(), "10");
    assert_eq!(Suit::Diamonds.to_string(), "♦");
    assert_eq!(Card::new(Rank::Queen, Suit::Clubs).to_string(), "Q♣");
}
