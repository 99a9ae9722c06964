use vstd::prelude::*;

use rand::seq::SliceRandom;
use rand::Rng;

use crate::card::Card;

verus! {

/// Puts `cards` in a random order with `rand`'s `SliceRandom::shuffle` (a Fisher-Yates
/// shuffle driven by the thread-local generator `rand::rng()`).
/// Claimed: the result is a permutation of the input (same cards, same count).
/// Which permutation comes out is left open: it rests on chance.
#[verifier::external_body]
pub(crate) fn shuffle_cards(cards: &mut Vec<Card>)
    ensures
        final(cards)@.to_multiset() == old(cards)@.to_multiset(),
        final(cards)@.len() == old(cards)@.len(),
{
    cards.shuffle(&mut rand::rng());
}

/// A random number in `0..n`, from `rand`'s `Rng::random_range` on the thread-local
/// generator `rand::rng()`. The call panics on an empty range, so `n` must be positive.
/// Claimed: the result is below `n`; which number comes out rests on chance.
#[verifier::external_body]
pub(crate) fn random_below(n: usize) -> (r: usize)
    requires
        n > 0,
    ensures
        r < n,
{
    rand::rng().random_range(0..n)
}

/// A fresh session token: `uuid::Uuid::new_v4()` written in its hyphenated form
/// (`Display` of `Uuid`, 32 hexadecimal digits and 4 hyphens).
/// Claimed: the text is 36 characters long; its content rests on chance.
#[verifier::external_body]
pub(crate) fn new_session_token() -> (s: String)
    ensures
        s@.len() == 36,
{
    uuid::Uuid::new_v4().to_string()
}

} // verus!
