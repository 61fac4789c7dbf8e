//! The engine's one source of randomness: shuffling a pile of cards.

use vstd::prelude::*;
use crate::player::OwnedCard;
use rand::seq::SliceRandom;

verus! {

/// Relies on rand's `SliceRandom::shuffle`: an in-place Fisher-Yates shuffle,
/// so the result is a permutation of the input. The permutation is random, so
/// nothing more than multiset equality can be promised of any one outcome.
#[verifier::external_body]
pub fn shuffle_cards(cards: &mut Vec<OwnedCard>)
    ensures
        final(cards)@.to_multiset() == old(cards)@.to_multiset(),
        final(cards)@.len() == old(cards)@.len(),
{
    cards.shuffle(&mut rand::rng());
}

} // verus!
