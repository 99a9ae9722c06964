use vstd::prelude::*;

use crate::card::Card;

verus! {

/// Players are told apart by this number.
pub type PlayerId = u64;

/// A seat at the table: lives, tokens and the card in hand.
#[derive(Debug, Clone)]
pub struct Player {
    pub id: PlayerId,
    pub name: String,
    pub lives: u8,
    pub exemption_tokens: u8,
    pub blocker_tokens: u8,
    pub hand: Option<Card>,
    pub is_eliminated: bool,
}

impl Player {
    /// A player still in the game: not eliminated and with a life left.
    pub open spec fn alive(&self) -> bool {
        !self.is_eliminated && self.lives > 0
    }

    /// The player after losing one life: lives never go below zero, and a player
    /// left with no life is eliminated.
    pub open spec fn after_losing_life(self) -> Player {
        let lives = if self.lives > 0 { (self.lives - 1) as u8 } else { 0u8 };
        Player { lives, is_eliminated: self.is_eliminated || lives == 0, ..self }
    }

    /// The player brought back: one life, not eliminated, no tokens.
    pub open spec fn resurrected(self) -> Player {
        Player {
            lives: 1,
            is_eliminated: false,
            exemption_tokens: 0,
            blocker_tokens: 0,
            ..self
        }
    }

    pub fn new(
        id: PlayerId,
        name: String,
        lives: u8,
        exemption_tokens: u8,
        blocker_tokens: u8,
    ) -> (p: Self)
        ensures
            p == (Player {
                id,
                name,
                lives,
                exemption_tokens,
                blocker_tokens,
                hand: None,
                is_eliminated: false,
            }),
    {
        Self { id, name, lives, exemption_tokens, blocker_tokens, hand: None, is_eliminated: false }
    }

    #[verifier::when_used_as_spec(alive)]
    pub fn is_alive(&self) -> (b: bool)
        ensures
            b == self.alive(),
    {
        !self.is_eliminated && self.lives > 0
    }

    /// Takes one life away (never below zero); at zero lives the player is eliminated.
    pub fn lose_life(&mut self)
        ensures
            *final(self) == old(self).after_losing_life(),
    {
        if self.lives > 0 {
            self.lives -= 1;
        }
        if self.lives == 0 {
            self.is_eliminated = true;
        }
    }

    pub fn can_block(&self) -> (b: bool)
        ensures
            b == (self.blocker_tokens > 0),
    {
        self.blocker_tokens > 0
    }

    /// Spends one blocker token; the player must hold one.
    pub fn use_blocker(&mut self)
        requires
            old(self).blocker_tokens > 0,
        ensures
            *final(self) == (Player {
                blocker_tokens: (old(self).blocker_tokens - 1) as u8,
                ..*old(self)
            }),
    {
        self.blocker_tokens -= 1;
    }

    pub fn can_exempt(&self) -> (b: bool)
        ensures
            b == (self.exemption_tokens > 0),
    {
        self.exemption_tokens > 0
    }

    /// Spends one exemption token; the player must hold one.
    pub fn use_exemption(&mut self)
        requires
            old(self).exemption_tokens > 0,
        ensures
            *final(self) == (Player {
                exemption_tokens: (old(self).exemption_tokens - 1) as u8,
                ..*old(self)
            }),
    {
        self.exemption_tokens -= 1;
    }

    /// Brings the player back with one life and no tokens.
    pub fn resurrect(&mut self)
        ensures
            *final(self) == old(self).resurrected(),
    {
        self.lives = 1;
        self.is_eliminated = false;
        self.exemption_tokens = 0;
        self.blocker_tokens = 0;
    }
}

} // verus!
