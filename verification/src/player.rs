//! A player: identity, a signed life total with no floor, and four zones.
//! The library is a queue whose front is the top of the deck; it is shuffled
//! once at construction.

use vstd::prelude::*;
use std::collections::VecDeque;
use crate::card::Card;
use crate::shuffle::shuffle_cards;

verus! {

broadcast use vstd::seq_lib::group_to_multiset_ensures, vstd::multiset::group_multiset_axioms;

#[derive(Debug, Clone, Copy, PartialEq, Eq, Structural)]
pub struct PlayerId(pub u32);

/// A card together with the player who owns it.
#[derive(Debug, Clone)]
pub struct OwnedCard {
    pub card: Card,
    pub owner: PlayerId,
}

impl OwnedCard {
    pub open spec fn wf(self) -> bool {
        self.card.wf()
    }
}

#[derive(Debug, Clone)]
pub struct Zones {
    pub hand: Vec<OwnedCard>,
    pub library: VecDeque<OwnedCard>,
    pub graveyard: Vec<OwnedCard>,
    pub exile: Vec<OwnedCard>,
}

impl Zones {
    /// Every card in every zone is well formed.
    pub open spec fn wf(self) -> bool {
        &&& (forall|i: int| 0 <= i < self.hand@.len() ==> (#[trigger] self.hand@[i]).wf())
        &&& (forall|i: int| 0 <= i < self.library@.len() ==> (#[trigger] self.library@[i]).wf())
        &&& (forall|i: int|
            0 <= i < self.graveyard@.len() ==> (#[trigger] self.graveyard@[i]).wf())
        &&& (forall|i: int| 0 <= i < self.exile@.len() ==> (#[trigger] self.exile@[i]).wf())
    }
}

/// The typed, expected outcome of drawing from an empty library.
#[derive(Debug, Clone, Copy)]
pub struct Decked;

#[derive(Debug, Clone)]
pub struct PlayerState {
    pub id: PlayerId,
    pub life_total: i32,
    pub zones: Zones,
}

/// Wraps a card with its owner, for modelling a freshly built library.
pub open spec fn owned_by(id: PlayerId) -> spec_fn(Card) -> OwnedCard {
    |c: Card| (OwnedCard { card: c, owner: id })
}

/// Membership carries over between sequences with equal multisets.
pub proof fn lemma_multiset_membership(a: Seq<OwnedCard>, b: Seq<OwnedCard>)
    requires
        a.to_multiset() == b.to_multiset(),
    ensures
        forall|i: int| 0 <= i < b.len() ==> a.contains(#[trigger] b[i]),
{
    assert forall|i: int| 0 <= i < b.len() implies a.contains(b[i]) by {
        assert(b.contains(b[i]));
        assert(b.to_multiset().count(b[i]) > 0);
    }
}

impl PlayerState {
    pub open spec fn wf(self) -> bool {
        self.zones.wf()
    }

    /// A new player: the given identity, twenty life, an empty hand,
    /// graveyard and exile, and the deck -- shuffled -- as the library.
    pub fn new(id: u32, deck: Vec<Card>) -> (r: Self)
        ensures
            r.id == PlayerId(id),
            r.life_total == 20,
            r.zones.hand@.len() == 0,
            r.zones.graveyard@.len() == 0,
            r.zones.exile@.len() == 0,
            r.zones.library@.len() == deck@.len(),
            r.zones.library@.to_multiset() == deck@.map_values(owned_by(PlayerId(id))).to_multiset(),
            forall|i: int|
                0 <= i < r.zones.library@.len() ==> (#[trigger] r.zones.library@[i]).owner
                    == PlayerId(id) && deck@.contains(r.zones.library@[i].card),
    {
        let ghost deck0 = deck@;
        let ghost wrap = owned_by(PlayerId(id));
        let id = PlayerId(id);
        let mut deck = deck;
        let mut pile: Vec<OwnedCard> = Vec::new();
        while deck.len() > 0
            invariant
                pile@.len() + deck@.len() == deck0.len(),
                pile@.to_multiset().add(deck@.map_values(wrap).to_multiset()) =~= deck0.map_values(
                    wrap,
                ).to_multiset(),
                forall|i: int|
                    0 <= i < pile@.len() ==> (#[trigger] pile@[i]).owner == id && deck0.contains(
                        pile@[i].card,
                    ),
                forall|i: int| 0 <= i < deck@.len() ==> deck0.contains(#[trigger] deck@[i]),
                wrap == owned_by(id),
            decreases deck@.len(),
        {
            let ghost old_deck = deck@;
            let ghost old_pile = pile@;
            let card = deck.pop().unwrap();
            pile.push(OwnedCard { card, owner: id });
            proof {
                let odm = old_deck.map_values(wrap);
                assert(deck@ =~= old_deck.remove(old_deck.len() - 1));
                assert(deck@.map_values(wrap) =~= odm.remove(odm.len() - 1));
                assert(odm.remove(odm.len() - 1).to_multiset() =~= odm.to_multiset().remove(
                    odm[odm.len() - 1],
                ));
                assert(odm[odm.len() - 1] == wrap(card));
                assert(pile@ =~= old_pile.push(wrap(card)));
                assert(old_pile.push(wrap(card)).to_multiset() =~= old_pile.to_multiset().insert(
                    wrap(card),
                ));
                assert(odm.contains(wrap(card)));
                assert(odm.to_multiset().count(wrap(card)) > 0);
                assert(pile@.to_multiset().add(deck@.map_values(wrap).to_multiset())
                    =~= deck0.map_values(wrap).to_multiset());
            }
        }
        assert(pile@.to_multiset() =~= deck0.map_values(wrap).to_multiset()) by {
            assert(deck@.map_values(wrap) =~= Seq::<OwnedCard>::empty());
            assert(deck@.map_values(wrap).to_multiset().len() == 0);
        }
        shuffle_cards(&mut pile);
        let ghost shuffled = pile@;
        proof {
            lemma_multiset_membership(deck0.map_values(wrap), shuffled);
            assert forall|i: int|
                0 <= i < shuffled.len() implies (#[trigger] shuffled[i]).owner == id
                && deck0.contains(shuffled[i].card) by {
                let j = choose|j: int|
                    0 <= j < deck0.map_values(wrap).len() && deck0.map_values(wrap)[j]
                        == shuffled[i];
                assert(deck0.map_values(wrap)[j] == wrap(deck0[j]));
                assert(deck0.contains(deck0[j]));
            }
        }
        let mut library: VecDeque<OwnedCard> = VecDeque::new();
        let mut pile = pile;
        while pile.len() > 0
            invariant
                library@.len() + pile@.len() == shuffled.len(),
                library@.to_multiset().add(pile@.to_multiset()) =~= shuffled.to_multiset(),
                forall|i: int|
                    0 <= i < library@.len() ==> (#[trigger] library@[i]).owner == id
                        && deck0.contains(library@[i].card),
                forall|i: int|
                    0 <= i < pile@.len() ==> (#[trigger] pile@[i]).owner == id && deck0.contains(
                        pile@[i].card,
                    ),
            decreases pile@.len(),
        {
            let ghost old_pile = pile@;
            let ghost old_lib = library@;
            let card = pile.pop().unwrap();
            library.push_back(card);
            proof {
                assert(pile@ =~= old_pile.remove(old_pile.len() - 1));
                assert(old_pile.remove(old_pile.len() - 1).to_multiset()
                    =~= old_pile.to_multiset().remove(old_pile[old_pile.len() - 1]));
                assert(old_pile[old_pile.len() - 1] == card);
                assert(library@ =~= old_lib.push(card));
                assert(old_lib.push(card).to_multiset() =~= old_lib.to_multiset().insert(card));
                assert(old_pile.contains(card));
                assert(old_pile.to_multiset().count(card) > 0);
                assert(library@.to_multiset().add(pile@.to_multiset())
                    =~= shuffled.to_multiset());
            }
        }
        proof {
            assert(pile@.to_multiset().len() == 0);
            assert(library@.to_multiset() =~= shuffled.to_multiset());
            assert(library@.to_multiset().len() == library@.len());
            assert(deck0.map_values(wrap).to_multiset().len() == deck0.map_values(wrap).len());
        }
        Self {
            id,
            life_total: 20,
            zones: Zones {
                hand: Vec::new(),
                library,
                graveyard: Vec::new(),
                exile: Vec::new(),
            },
        }
    }

    /// Draws the top card of the library into the hand; reports `Decked`
    /// -- and changes nothing -- when the library is empty.
    pub fn draw_a_card(&mut self) -> (r: Result<(), Decked>)
        ensures
            r is Err <==> old(self).zones.library@.len() == 0,
            final(self).id == old(self).id,
            final(self).life_total == old(self).life_total,
            final(self).zones.graveyard == old(self).zones.graveyard,
            final(self).zones.exile == old(self).zones.exile,
            r is Err ==> final(self).zones.library@ == old(self).zones.library@
                && final(self).zones.hand == old(self).zones.hand,
            r is Ok ==> final(self).zones.library@ == old(self).zones.library@.drop_first()
                && final(self).zones.hand@ == old(self).zones.hand@.push(
                old(self).zones.library@[0],
            ),
    {
        match self.zones.library.pop_front() {
            Some(card) => {
                self.zones.hand.push(card);
                proof {
                    assert(self.zones.library@ =~= old(self).zones.library@.drop_first());
                }
                Ok(())
            },
            None => Err(Decked),
        }
    }
}

} // verus!
