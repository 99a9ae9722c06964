use vstd::prelude::*;

use crate::chance::shuffle_cards;

verus! {

/// A card suit. Suits never decide the outcome of a round.
#[derive(Debug, Clone, Copy, PartialEq, Eq, Structural, Hash)]
pub enum Suit {
    Hearts,
    Diamonds,
    Clubs,
    Spades,
}

/// A card rank, from Ace up to King.
#[derive(Debug, Clone, Copy, PartialEq, Eq, Structural, Hash)]
pub enum Rank {
    Ace,
    Two,
    Three,
    Four,
    Five,
    Six,
    Seven,
    Eight,
    Nine,
    Ten,
    Jack,
    Queen,
    King,
}

/// Position of a rank in the order Ace, Two, ..., Queen, King (0 to 12).
pub open spec fn rank_index(r: Rank) -> nat {
    match r {
        Rank::Ace => 0,
        Rank::Two => 1,
        Rank::Three => 2,
        Rank::Four => 3,
        Rank::Five => 4,
        Rank::Six => 5,
        Rank::Seven => 6,
        Rank::Eight => 7,
        Rank::Nine => 8,
        Rank::Ten => 9,
        Rank::Jack => 10,
        Rank::Queen => 11,
        Rank::King => 12,
    }
}

/// The rank at a position of the order Ace, Two, ..., King.
pub open spec fn rank_at(i: int) -> Rank {
    if i == 0 {
        Rank::Ace
    } else if i == 1 {
        Rank::Two
    } else if i == 2 {
        Rank::Three
    } else if i == 3 {
        Rank::Four
    } else if i == 4 {
        Rank::Five
    } else if i == 5 {
        Rank::Six
    } else if i == 6 {
        Rank::Seven
    } else if i == 7 {
        Rank::Eight
    } else if i == 8 {
        Rank::Nine
    } else if i == 9 {
        Rank::Ten
    } else if i == 10 {
        Rank::Jack
    } else if i == 11 {
        Rank::Queen
    } else {
        Rank::King
    }
}

/// The suit at a position of the order Hearts, Diamonds, Clubs, Spades.
pub open spec fn suit_at(i: int) -> Suit {
    if i == 0 {
        Suit::Hearts
    } else if i == 1 {
        Suit::Diamonds
    } else if i == 2 {
        Suit::Clubs
    } else {
        Suit::Spades
    }
}

/// Value of a rank in a normal round: Ace lowest (0) up to Queen (11);
/// a King has no normal value.
pub open spec fn normal_rank_value(r: Rank) -> Option<u8> {
    if r == Rank::King {
        None
    } else {
        Some(rank_index(r) as u8)
    }
}

/// Value of a rank in a cowboy round: Two lowest (0), King 11, Ace highest (12).
pub open spec fn cowboy_rank_value(r: Rank) -> u8 {
    ((rank_index(r) + 12) % 13) as u8
}

/// The text shown for a rank.
pub open spec fn rank_text(r: Rank) -> Seq<char> {
    match r {
        Rank::Ace => seq!['A'],
        Rank::Two => seq!['2'],
        Rank::Three => seq!['3'],
        Rank::Four => seq!['4'],
        Rank::Five => seq!['5'],
        Rank::Six => seq!['6'],
        Rank::Seven => seq!['7'],
        Rank::Eight => seq!['8'],
        Rank::Nine => seq!['9'],
        Rank::Ten => seq!['1', '0'],
        Rank::Jack => seq!['J'],
        Rank::Queen => seq!['Q'],
        Rank::King => seq!['K'],
    }
}

/// The symbol shown for a suit.
pub open spec fn suit_text(s: Suit) -> Seq<char> {
    match s {
        Suit::Hearts => seq!['\u{2665}'],
        Suit::Diamonds => seq!['\u{2666}'],
        Suit::Clubs => seq!['\u{2663}'],
        Suit::Spades => seq!['\u{2660}'],
    }
}

impl Suit {
    /// The suit's symbol.
    pub fn to_string(&self) -> (s: String)
        ensures
            s@ == suit_text(*self),
    {
        let text = match self {
            Suit::Hearts => "\u{2665}",
            Suit::Diamonds => "\u{2666}",
            Suit::Clubs => "\u{2663}",
            Suit::Spades => "\u{2660}",
        };
        proof {
            reveal_strlit("\u{2665}");
            reveal_strlit("\u{2666}");
            reveal_strlit("\u{2663}");
            reveal_strlit("\u{2660}");
        }
        String::from_str(text)
    }
}

impl Rank {
    /// Ranking value in a normal round.
    /// Queen is highest (11), Ace is lowest (0).
    /// King has no normal ranking: it triggers a cowboy round.
    pub fn normal_value(self) -> (v: Option<u8>)
        ensures
            v == normal_rank_value(self),
    {
        match self {
            Rank::Ace => Some(0),
            Rank::Two => Some(1),
            Rank::Three => Some(2),
            Rank::Four => Some(3),
            Rank::Five => Some(4),
            Rank::Six => Some(5),
            Rank::Seven => Some(6),
            Rank::Eight => Some(7),
            Rank::Nine => Some(8),
            Rank::Ten => Some(9),
            Rank::Jack => Some(10),
            Rank::Queen => Some(11),
            Rank::King => None,
        }
    }

    /// Ranking value in a cowboy round.
    /// Ace is highest (12), Two is lowest (0).
    pub fn cowboy_value(self) -> (v: u8)
        ensures
            v == cowboy_rank_value(self),
    {
        match self {
            Rank::Two => 0,
            Rank::Three => 1,
            Rank::Four => 2,
            Rank::Five => 3,
            Rank::Six => 4,
            Rank::Seven => 5,
            Rank::Eight => 6,
            Rank::Nine => 7,
            Rank::Ten => 8,
            Rank::Jack => 9,
            Rank::Queen => 10,
            Rank::King => 11,
            Rank::Ace => 12,
        }
    }

    /// The rank's label ("A", "2", ..., "10", "J", "Q", "K").
    pub fn to_string(&self) -> (s: String)
        ensures
            s@ == rank_text(*self),
    {
        let text = match self {
            Rank::Ace => "A",
            Rank::Two => "2",
            Rank::Three => "3",
            Rank::Four => "4",
            Rank::Five => "5",
            Rank::Six => "6",
            Rank::Seven => "7",
            Rank::Eight => "8",
            Rank::Nine => "9",
            Rank::Ten => "10",
            Rank::Jack => "J",
            Rank::Queen => "Q",
            Rank::King => "K",
        };
        proof {
            reveal_strlit("A");
            reveal_strlit("2");
            reveal_strlit("3");
            reveal_strlit("4");
            reveal_strlit("5");
            reveal_strlit("6");
            reveal_strlit("7");
            reveal_strlit("8");
            reveal_strlit("9");
            reveal_strlit("10");
            reveal_strlit("J");
            reveal_strlit("Q");
            reveal_strlit("K");
        }
        String::from_str(text)
    }
}

/// A playing card.
#[derive(Debug, Clone, Copy, PartialEq, Eq, Structural, Hash)]
pub struct Card {
    pub rank: Rank,
    pub suit: Suit,
}

impl Card {
    pub open spec fn spec_is_king(self) -> bool {
        self.rank == Rank::King
    }

    pub fn new(rank: Rank, suit: Suit) -> (c: Self)
        ensures
            c.rank == rank,
            c.suit == suit,
    {
        Self { rank, suit }
    }

    #[verifier::when_used_as_spec(spec_is_king)]
    pub fn is_king(self) -> (b: bool)
        ensures
            b == (self.rank == Rank::King),
    {
        self.rank == Rank::King
    }

    /// The card's text: its rank's label followed by its suit's symbol ("A♠", "10♥").
    pub fn to_string(&self) -> (s: String)
        ensures
            s@ == rank_text(self.rank) + suit_text(self.suit),
    {
        let r = self.rank.to_string();
        let s = self.suit.to_string();
        r.concat(s.as_str())
    }
}

/// The card at position `i` of a fresh deck: suits in the order
/// Hearts, Diamonds, Clubs, Spades, and within each suit Ace up to King.
pub open spec fn fresh_card(i: int) -> Card {
    Card { rank: rank_at(i % 13), suit: suit_at(i / 13) }
}

/// The 52 cards of a fresh deck, bottom first.
pub open spec fn fresh_deck() -> Seq<Card> {
    Seq::new(52, |i: int| fresh_card(i))
}

/// A pile of cards; the last card of the pile is its top.
pub struct Deck {
    cards: Vec<Card>,
}

impl View for Deck {
    type V = Seq<Card>;

    closed spec fn view(&self) -> Seq<Card> {
        self.cards@
    }
}

impl Deck {
    /// A fresh, unshuffled deck of 52 cards.
    pub fn new() -> (d: Self)
        ensures
            d@ == fresh_deck(),
    {
        let suits = [Suit::Hearts, Suit::Diamonds, Suit::Clubs, Suit::Spades];
        let ranks = [
            Rank::Ace,
            Rank::Two,
            Rank::Three,
            Rank::Four,
            Rank::Five,
            Rank::Six,
            Rank::Seven,
            Rank::Eight,
            Rank::Nine,
            Rank::Ten,
            Rank::Jack,
            Rank::Queen,
            Rank::King,
        ];
        assert(forall|k: int| 0 <= k < 4 ==> suits@[k] == suit_at(k));
        assert(forall|k: int| 0 <= k < 13 ==> ranks@[k] == rank_at(k));
        let mut cards: Vec<Card> = Vec::with_capacity(52);
        let mut s: usize = 0;
        while s < 4
            invariant
                s <= 4,
                cards@.len() == 13 * s,
                forall|k: int| 0 <= k < 4 ==> suits@[k] == suit_at(k),
                forall|k: int| 0 <= k < 13 ==> ranks@[k] == rank_at(k),
                forall|k: int| 0 <= k < cards@.len() ==> cards@[k] == fresh_card(k),
            decreases 4 - s,
        {
            let mut r: usize = 0;
            while r < 13
                invariant
                    s < 4,
                    r <= 13,
                    cards@.len() == 13 * s + r,
                    forall|k: int| 0 <= k < 4 ==> suits@[k] == suit_at(k),
                    forall|k: int| 0 <= k < 13 ==> ranks@[k] == rank_at(k),
                    forall|k: int| 0 <= k < cards@.len() ==> cards@[k] == fresh_card(k),
                decreases 13 - r,
            {
                let card = Card::new(ranks[r], suits[s]);
                proof {
                    let k = 13 * s + r;
                    assert(k % 13 == r as int && k / 13 == s as int) by (nonlinear_arith)
                        requires
                            k == 13 * s + r,
                            r < 13,
                    ;
                }
                cards.push(card);
                r = r + 1;
            }
            s = s + 1;
        }
        let d = Self { cards };
        assert(d@ =~= fresh_deck());
        d
    }

    /// Puts the cards in a random order.
    pub fn shuffle(&mut self)
        ensures
            final(self)@.to_multiset() == old(self)@.to_multiset(),
            final(self)@.len() == old(self)@.len(),
    {
        shuffle_cards(&mut self.cards);
    }

    /// Takes the top card, if any.
    pub fn deal_one(&mut self) -> (c: Option<Card>)
        ensures
            old(self)@.len() == 0 ==> c is None && final(self)@ == old(self)@,
            old(self)@.len() > 0 ==> c == Some(old(self)@.last()) && final(self)@ == old(
                self,
            )@.drop_last(),
    {
        self.cards.pop()
    }

    /// The number of cards left.
    pub fn remaining(&self) -> (n: usize)
        ensures
            n == self@.len(),
    {
        self.cards.len()
    }

    /// Puts a card on the top of the deck.
    pub fn push(&mut self, card: Card)
        ensures
            final(self)@ == old(self)@.push(card),
    {
        self.cards.push(card);
    }

    /// The cards, bottom first.
    pub fn cards(&self) -> (v: &Vec<Card>)
        ensures
            v@ == self@,
    {
        &self.cards
    }
}

} // verus!
