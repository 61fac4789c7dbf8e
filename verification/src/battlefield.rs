//! The mutable game state: players, in-play objects, and an append-only event
//! log, together with the primitive state transitions (entering play, casting,
//! applying card effects).

use vstd::prelude::*;
use crate::abilities::{Ability, Effect, EntersAbility};
use crate::card::Card;
use crate::player::{OwnedCard, PlayerId, PlayerState};
use crate::types::Type;

verus! {

/// A counter a permanent can carry. Nothing in the modeled rules subset reads
/// counters yet; objects only record their presence.
#[derive(Debug, Clone, Copy, PartialEq, Eq, Structural)]
pub enum Counters {
    PlusOnePlusOne,
}

/// A physical object on the battlefield.
#[derive(Debug, Clone)]
pub struct InPlayObject {
    pub controller: PlayerId,
    pub is_token: bool,
    pub counters: Vec<Counters>,
    pub card: OwnedCard,
    pub tapped: bool,
}

/// Events that can happen during a game. The log is append-only and
/// write-only: the engine records every visible state change here, and no
/// rule reads it back.
#[derive(Debug, Clone)]
pub enum Event {
    StartTurn(PlayerId),
    EnteredPlay(InPlayObject),
    Tap(InPlayObject),
    Untap(InPlayObject),
    DiscoverInto(Option<OwnedCard>),
    Draw(OwnedCard),
    LostLife(PlayerId, i32),
    ScryTop(OwnedCard),
    ScryBottom(OwnedCard),
    SurveilTop(OwnedCard),
    SurveilYard(OwnedCard),
    Mulligan(PlayerId),
    EndTurn(PlayerId),
}

#[derive(Debug, Clone)]
pub struct Battlefield {
    pub players: Vec<PlayerState>,
    pub objects: Vec<InPlayObject>,
    pub log: Vec<Event>,
}

/// Clamps a mathematical integer into the life-total type's range. Life has
/// no floor in the rules; only the machine type bounds it.
pub open spec fn sat_i32(v: int) -> int {
    if v > i32::MAX {
        i32::MAX as int
    } else if v < i32::MIN {
        i32::MIN as int
    } else {
        v
    }
}

fn sat_add_i32(a: i32, b: i32) -> (r: i32)
    ensures
        r as int == sat_i32(a + b),
{
    match a.checked_add(b) {
        Some(v) => v,
        None => {
            if b > 0 {
                i32::MAX
            } else {
                i32::MIN
            }
        },
    }
}

fn sat_sub_i32(a: i32, b: i32) -> (r: i32)
    ensures
        r as int == sat_i32(a - b),
{
    match a.checked_sub(b) {
        Some(v) => v,
        None => {
            if b < 0 {
                i32::MAX
            } else {
                i32::MIN
            }
        },
    }
}

/// The hand and library after drawing one card: the library's top moved to
/// the hand if the library was not empty; the exile is untouched. The
/// graveyard is deliberately left unconstrained so the same statement serves
/// a caster whose spell lands in the graveyard right afterwards.
pub open spec fn drew_one_cards(pre: PlayerState, post: PlayerState) -> bool {
    &&& post.id == pre.id
    &&& post.zones.exile == pre.zones.exile
    &&& if pre.zones.library@.len() == 0 {
        post.zones.library@ == pre.zones.library@ && post.zones.hand == pre.zones.hand
    } else {
        post.zones.library@ == pre.zones.library@.drop_first() && post.zones.hand@
            == pre.zones.hand@.push(pre.zones.library@[0])
    }
}

/// A player whose hand, library and exile are untouched, whatever happened to
/// their life total or graveyard.
pub open spec fn untouched_cards(pre: PlayerState, post: PlayerState) -> bool {
    &&& post.id == pre.id
    &&& post.zones.hand == pre.zones.hand
    &&& post.zones.library == pre.zones.library
    &&& post.zones.exile == pre.zones.exile
}

/// An object after the untap step; every other field is kept.
pub open spec fn untap_obj(o: InPlayObject) -> InPlayObject {
    InPlayObject { tapped: false, ..o }
}

/// How many cards the casting player can account for: hand, library,
/// graveyard and exile, plus everything on the battlefield. No engine step
/// may lose a card, so the operations conserve this count exactly.
pub open spec fn p0_card_count(b: Battlefield) -> int {
    b.p0().zones.hand@.len() as int + b.p0().zones.library@.len() + b.p0().zones.graveyard@.len()
        + b.p0().zones.exile@.len() + b.objects@.len()
}

/// The opponent's card count across their four zones.
pub open spec fn p1_card_count(b: Battlefield) -> int {
    b.p1().zones.hand@.len() as int + b.p1().zones.library@.len() + b.p1().zones.graveyard@.len()
        + b.p1().zones.exile@.len()
}

/// The life a player loses when the other player's library reveals its top
/// card under the mill-for-life effect.
pub open spec fn mill_loss(other: PlayerState) -> int {
    if other.zones.library@.len() == 0 {
        0
    } else {
        other.zones.library@[0].card.spec_mana_value()
    }
}

/// The exact log entries the mill-for-life effect appends: one life-loss
/// entry per nonempty library, in the caster-then-opponent reveal order.
pub open spec fn mill_events(pre0: PlayerState, pre1: PlayerState) -> Seq<Event> {
    (if pre0.zones.library@.len() > 0 {
        seq![Event::LostLife(pre1.id, mill_loss(pre0) as i32)]
    } else {
        Seq::<Event>::empty()
    }) + (if pre1.zones.library@.len() > 0 {
        seq![Event::LostLife(pre0.id, mill_loss(pre1) as i32)]
    } else {
        Seq::<Event>::empty()
    })
}

/// What one effect does to the two players' cards and life totals. The
/// caster's and opponent's graveyards are stated separately by the callers,
/// so a spell moving to the graveyard right after its effect can reuse this.
pub open spec fn effect_outcome(
    e: Effect,
    pre0: PlayerState,
    pre1: PlayerState,
    post0: PlayerState,
    post1: PlayerState,
) -> bool {
    match e {
        Effect::GainTwoAndDraw => drew_one_cards(pre0, post0) && post0.life_total as int
            == sat_i32(pre0.life_total + 2) && untouched_cards(pre1, post1)
            && post1.life_total == pre1.life_total,
        Effect::DrawOne => drew_one_cards(pre0, post0) && post0.life_total == pre0.life_total
            && untouched_cards(pre1, post1) && post1.life_total == pre1.life_total,
        Effect::OpponentsLoseOne => untouched_cards(pre0, post0) && post0.life_total
            == pre0.life_total && untouched_cards(pre1, post1) && post1.life_total as int
            == sat_i32(pre1.life_total - 1),
        Effect::MillForLife => drew_one_cards(pre0, post0) && drew_one_cards(pre1, post1)
            && post0.life_total as int == sat_i32(pre0.life_total - mill_loss(pre1))
            && post1.life_total as int == sat_i32(pre1.life_total - mill_loss(pre0)),
    }
}

impl Battlefield {
    /// The engine always runs a two-player game; every card in any zone or on
    /// the battlefield is well formed.
    pub open spec fn wf(self) -> bool {
        &&& self.players@.len() == 2
        &&& (forall|i: int| 0 <= i < self.players@.len() ==> (#[trigger] self.players@[i]).wf())
        &&& (forall|i: int|
            0 <= i < self.objects@.len() ==> (#[trigger] self.objects@[i]).card.wf())
    }

    /// Shorthand for the two players' states.
    pub open spec fn p0(self) -> PlayerState {
        self.players@[0]
    }

    pub open spec fn p1(self) -> PlayerState {
        self.players@[1]
    }

    /// Applies one bespoke card effect. Player 0 is the caster and player 1
    /// the opponent, as everywhere in this engine.
    pub fn apply_effect(&mut self, effect: Effect)
        requires
            old(self).wf(),
        ensures
            final(self).wf(),
            final(self).objects == old(self).objects,
            old(self).log@.is_prefix_of(final(self).log@),
            final(self).players@.len() == 2,
            final(self).p0().id == old(self).p0().id,
            final(self).p1().id == old(self).p1().id,
            final(self).p0().zones.graveyard == old(self).p0().zones.graveyard,
            final(self).p1().zones.graveyard == old(self).p1().zones.graveyard,
            final(self).p0().zones.library@.len() <= old(self).p0().zones.library@.len(),
            final(self).p1().zones.library@.len() <= old(self).p1().zones.library@.len(),
            final(self).p0().zones.hand@.len() + final(self).p0().zones.library@.len()
                == old(self).p0().zones.hand@.len() + old(self).p0().zones.library@.len(),
            final(self).p1().zones.hand@.len() + final(self).p1().zones.library@.len()
                == old(self).p1().zones.hand@.len() + old(self).p1().zones.library@.len(),
            p0_card_count(*final(self)) == p0_card_count(*old(self)),
            p1_card_count(*final(self)) == p1_card_count(*old(self)),
            effect_outcome(effect, old(self).p0(), old(self).p1(), final(self).p0(), final(self).p1()),
            effect == Effect::OpponentsLoseOne ==> final(self).p0() == old(self).p0()
                && final(self).log@ == old(self).log@.push(
                Event::LostLife(old(self).p1().id, 1),
            ),
            effect == Effect::MillForLife ==> final(self).log@ == old(self).log@ + mill_events(
                old(self).p0(),
                old(self).p1(),
            ),
            (effect == Effect::GainTwoAndDraw || effect == Effect::DrawOne) ==> (
            if old(self).p0().zones.library@.len() > 0 {
                final(self).log@.len() == old(self).log@.len() + 1 && (final(self).log@.last()
                    matches Event::Draw(_))
            } else {
                final(self).log == old(self).log
            }),
    {
        match effect {
            Effect::GainTwoAndDraw => {
                self.players[0].life_total = sat_add_i32(self.players[0].life_total, 2);
                let drawn = self.players[0].zones.library.pop_front();
                match drawn {
                    Some(card) => {
                        self.log.push(Event::Draw(card.clone()));
                        self.players[0].zones.hand.push(card);
                    },
                    None => (),
                }
            },
            Effect::MillForLife => {
                let card1 = self.players[0].zones.library.pop_front();
                let card2 = self.players[1].zones.library.pop_front();
                match card1 {
                    Some(card) => {
                        let life_lost = card.card.mana_value() as i32;
                        let loser = self.players[1].id;
                        self.log.push(Event::LostLife(loser, life_lost));
                        self.players[1].life_total = sat_sub_i32(
                            self.players[1].life_total,
                            life_lost,
                        );
                        self.players[0].zones.hand.push(card);
                    },
                    None => (),
                }
                match card2 {
                    Some(card) => {
                        let life_lost = card.card.mana_value() as i32;
                        let loser = self.players[0].id;
                        self.players[0].life_total = sat_sub_i32(
                            self.players[0].life_total,
                            life_lost,
                        );
                        self.log.push(Event::LostLife(loser, life_lost));
                        self.players[1].zones.hand.push(card);
                    },
                    None => (),
                }
            },
            Effect::OpponentsLoseOne => {
                self.players[1].life_total = sat_sub_i32(self.players[1].life_total, 1);
                let loser = self.players[1].id;
                self.log.push(Event::LostLife(loser, 1));
            },
            Effect::DrawOne => {
                let drawn = self.players[0].zones.library.pop_front();
                match drawn {
                    Some(card) => {
                        self.log.push(Event::Draw(card.clone()));
                        self.players[0].zones.hand.push(card);
                    },
                    None => (),
                }
            },
        }
    }

    /// Moves a card from the caller's hand (the caller's responsibility) into
    /// play as a new untapped-or-tapped object, and hands back the at most one
    /// scry or surveil enter-play trigger for the caller to resolve.
    pub fn play_land(&mut self, card: OwnedCard) -> (r: Option<EntersAbility>)
        requires
            old(self).wf(),
            card.wf(),
        ensures
            final(self).wf(),
            final(self).players == old(self).players,
            final(self).objects@.len() == old(self).objects@.len() + 1,
            forall|i: int|
                0 <= i < old(self).objects@.len() ==> final(self).objects@[i] == old(
                    self,
                ).objects@[i],
            final(self).objects@.last().card == card,
            final(self).objects@.last().tapped == card.card.spec_enters_tapped(),
            final(self).objects@.last().controller == card.owner,
            final(self).objects@.last().is_token == false,
            final(self).objects@.last().counters@.len() == 0,
            old(self).log@.is_prefix_of(final(self).log@),
            final(self).log@.len() == old(self).log@.len() + 1,
            final(self).log@.last() matches Event::EnteredPlay(_),
            p0_card_count(*final(self)) == p0_card_count(*old(self)) + 1,
            p1_card_count(*final(self)) == p1_card_count(*old(self)),
            r == spec_land_etb(card.card),
    {
        let tapped = card.card.enters_tapped();
        let etb = match &card.card {
            Card::Single(face) => scan_land_etb(&face.abilities),
            _ => None,
        };
        let object = InPlayObject {
            controller: card.owner,
            is_token: false,
            counters: Vec::new(),
            card,
            tapped,
        };
        self.log.push(Event::EnteredPlay(object.clone()));
        self.objects.push(object);
        etb
    }

    /// Creates an in-play object for the cast card. The one modeled kind of
    /// non-permanent spell -- a split card whose left, instant-speed face
    /// carries a bespoke effect -- instead applies that effect and puts the
    /// used card into the casting player's graveyard. A discover trigger on
    /// the entering card searches the library from the top for the first
    /// nonland card of small enough mana value and casts it in turn.
    pub fn cast_spell(&mut self, card: OwnedCard)
        requires
            old(self).wf(),
            card.wf(),
        ensures
            final(self).wf(),
            final(self).players@.len() == 2,
            final(self).p0().id == old(self).p0().id,
            final(self).p1().id == old(self).p1().id,
            old(self).objects@.is_prefix_of(final(self).objects@),
            old(self).log@.is_prefix_of(final(self).log@),
            final(self).p0().zones.library@.len() <= old(self).p0().zones.library@.len(),
            final(self).p1().zones.library@.len() <= old(self).p1().zones.library@.len(),
            final(self).p0().zones.hand@.len() + final(self).p0().zones.library@.len()
                <= old(self).p0().zones.hand@.len() + old(self).p0().zones.library@.len(),
            final(self).p1().zones.hand@.len() + final(self).p1().zones.library@.len()
                <= old(self).p1().zones.hand@.len() + old(self).p1().zones.library@.len(),
            final(self).p1().zones.graveyard == old(self).p1().zones.graveyard,
            old(self).p0().zones.graveyard@.is_prefix_of(final(self).p0().zones.graveyard@),
            p0_card_count(*final(self)) == p0_card_count(*old(self)) + 1,
            p1_card_count(*final(self)) == p1_card_count(*old(self)),
            spec_instant_effect(card.card) is None ==> final(self).objects@.len() > old(
                self,
            ).objects@.len() && final(self).objects@[old(self).objects@.len() as int].card == card
                && final(self).objects@[old(self).objects@.len() as int].tapped
                == card.card.spec_enters_tapped() && final(self).objects@[old(
                self,
            ).objects@.len() as int].controller == card.owner && final(self).objects@[old(
                self,
            ).objects@.len() as int].is_token == false && final(self).objects@[old(
                self,
            ).objects@.len() as int].counters@.len() == 0,
            spec_instant_effect(card.card) is None ==> final(self).log@.len() > old(
                self,
            ).log@.len() && (final(self).log@[old(self).log@.len() as int] matches Event::EnteredPlay(_)),
            spec_instant_effect(card.card) is None && spec_discover_amount(card.card) is None
                ==> final(self).players == old(self).players && final(self).log@.len() == old(
                self,
            ).log@.len() + 1,
            spec_discover_amount(card.card) matches Some(n) ==> (spec_instant_effect(card.card)
                is None ==> match first_discover_index(
                old(self).p0().zones.library@,
                n as int,
                old(self).p0().zones.library@.len() as int,
            ) {
                None => final(self).players == old(self).players && final(self).log@.len() == old(
                    self,
                ).log@.len() + 2 && final(self).log@.last() == Event::DiscoverInto(None),
                Some(i) => final(self).p0().zones.library@.len() <= old(
                    self,
                ).p0().zones.library@.len() - 1 && final(self).log@.len() > old(self).log@.len()
                    + 1 && (final(self).log@[old(self).log@.len() as int + 1] matches Event::DiscoverInto(
                    Some(_),
                )),
            }),
            spec_instant_effect(card.card) matches Some(e) ==> final(self).objects == old(
                self,
            ).objects && final(self).p0().zones.graveyard@ == old(
                self,
            ).p0().zones.graveyard@.push(card) && effect_outcome(
                e,
                old(self).p0(),
                old(self).p1(),
                final(self).p0(),
                final(self).p1(),
            ),
        decreases old(self).p0().zones.library@.len(),
    {
        let mut instant: Option<Effect> = None;
        match &card.card {
            Card::Split(left, _) => {
                if matches!(left.type_line, Type::Instant) {
                    instant = scan_other_effect(&left.abilities);
                }
            },
            _ => (),
        }
        match instant {
            Some(effect) => {
                self.apply_effect(effect);
                self.players[0].zones.graveyard.push(card);
                proof {
                    lemma_prefix_push(old(self).p0().zones.graveyard@, card);
                }
                return;
            },
            None => (),
        }
        let discover_amount = match &card.card {
            Card::Single(face) => scan_discover(&face.abilities),
            _ => None,
        };
        let tapped = card.card.enters_tapped();
        let object = InPlayObject {
            controller: card.owner,
            is_token: false,
            counters: Vec::new(),
            card,
            tapped,
        };
        self.log.push(Event::EnteredPlay(object.clone()));
        self.objects.push(object);
        proof {
            lemma_prefix_push(old(self).objects@, object);
            lemma_prefix_push(old(self).log@, self.log@.last());
            assert(old(self).log@.is_prefix_of(self.log@));
        }
        let ghost mid = *self;
        match discover_amount {
            Some(amount) => {
                let idx = find_discover_index(&self.players[0].zones.library, amount);
                match idx {
                    Some(index) => {
                        let found = self.players[0].zones.library.remove(index).unwrap();
                        assert(found.wf());
                        self.log.push(Event::DiscoverInto(Some(found.clone())));
                        let ghost mid2 = *self;
                        proof {
                            lemma_prefix_trans(old(self).log@, mid.log@, mid2.log@);
                            lemma_prefix_refl(mid2.p0().zones.graveyard@);
                        }
                        self.cast_spell(found);
                        proof {
                            let oldlen = old(self).objects@.len() as int;
                            let oldlog = old(self).log@.len() as int;
                            assert(mid2.objects@.is_prefix_of(self.objects@));
                            assert(mid2.objects@ =~= self.objects@.subrange(
                                0,
                                mid2.objects@.len() as int,
                            ));
                            assert(self.objects@[oldlen] == mid2.objects@[oldlen]);
                            lemma_prefix_trans(old(self).objects@, mid2.objects@, self.objects@);
                            lemma_prefix_trans(old(self).log@, mid2.log@, self.log@);
                            assert(mid2.log@ =~= self.log@.subrange(0, mid2.log@.len() as int));
                            assert(self.log@[oldlog] == mid2.log@[oldlog]);
                            assert(self.log@[oldlog + 1] == mid2.log@[oldlog + 1]);
                            lemma_prefix_trans(
                                old(self).p0().zones.graveyard@,
                                mid2.p0().zones.graveyard@,
                                self.p0().zones.graveyard@,
                            );
                        }
                    },
                    None => {
                        self.log.push(Event::DiscoverInto(None));
                        proof {
                            lemma_prefix_trans(old(self).log@, mid.log@, self.log@);
                            lemma_prefix_refl(old(self).p0().zones.graveyard@);
                        }
                    },
                }
            },
            None => {
                proof {
                    lemma_prefix_refl(old(self).p0().zones.graveyard@);
                }
            },
        }
    }
}

/// Every sequence is a prefix of itself.
pub proof fn lemma_prefix_refl<A>(a: Seq<A>)
    ensures
        a.is_prefix_of(a),
{
    assert(a =~= a.subrange(0, a.len() as int));
}

/// A sequence is a prefix of itself extended by one element.
pub proof fn lemma_prefix_push<A>(a: Seq<A>, x: A)
    ensures
        a.is_prefix_of(a.push(x)),
{
    assert(a =~= a.push(x).subrange(0, a.len() as int));
}

/// Prefixes compose.
pub proof fn lemma_prefix_trans<A>(a: Seq<A>, b: Seq<A>, c: Seq<A>)
    requires
        a.is_prefix_of(b),
        b.is_prefix_of(c),
    ensures
        a.is_prefix_of(c),
{
    assert(b =~= c.subrange(0, b.len() as int));
    assert(a =~= b.subrange(0, a.len() as int));
    assert(a =~= c.subrange(0, a.len() as int)) by {
        assert forall|i: int| 0 <= i < a.len() implies a[i] == #[trigger] c.subrange(
            0,
            a.len() as int,
        )[i] by {
            assert(a[i] == b.subrange(0, a.len() as int)[i]);
            assert(b[i] == c.subrange(0, b.len() as int)[i]);
        }
    }
}

/// Finds the first library position holding what a discover of the given
/// amount looks for, scanning from the top of the library.
fn find_discover_index(lib: &std::collections::VecDeque<OwnedCard>, amount: u8) -> (r: Option<
    usize,
>)
    requires
        forall|i: int| 0 <= i < lib@.len() ==> (#[trigger] lib@[i]).wf(),
    ensures
        match r {
            Some(i) => i < lib@.len() && first_discover_index(lib@, amount as int, lib@.len() as int)
                == Some(i as int) && discover_hit(lib@[i as int], amount as int),
            None => first_discover_index(lib@, amount as int, lib@.len() as int) is None,
        },
{
    let mut i: usize = 0;
    while i < lib.len()
        invariant
            0 <= i <= lib@.len(),
            first_discover_index(lib@, amount as int, i as int) is None,
            forall|k: int| 0 <= k < lib@.len() ==> (#[trigger] lib@[k]).wf(),
        decreases lib@.len() - i,
    {
        let c = &lib[i];
        if !c.card.is_land() && c.card.mana_value() <= amount {
            proof {
                assert(first_discover_index(lib@, amount as int, i as int + 1) == Some(i as int));
                lemma_first_discover_index_stable(
                    lib@,
                    amount as int,
                    i as int + 1,
                    lib@.len() as int,
                );
            }
            return Some(i);
        }
        i = i + 1;
    }
    None
}

/// The first scry or surveil enter-play trigger in an ability list, if any.
pub open spec fn find_land_etb(s: Seq<Ability>) -> Option<EntersAbility>
    decreases s.len(),
{
    if s.len() == 0 {
        None
    } else {
        match s[0] {
            Ability::Enters(e) => if (e matches EntersAbility::Scry { .. }) || (
            e matches EntersAbility::Surveil { .. }) {
                Some(e)
            } else {
                find_land_etb(s.drop_first())
            },
            _ => find_land_etb(s.drop_first()),
        }
    }
}

/// The enter-play trigger a land resolves when it enters: only single-faced
/// lands with a scry or surveil trigger are in scope.
pub open spec fn spec_land_etb(card: Card) -> Option<EntersAbility> {
    match card {
        Card::Single(face) => find_land_etb(face.abilities@),
        _ => None,
    }
}

fn scan_land_etb(abilities: &Vec<Ability>) -> (r: Option<EntersAbility>)
    ensures
        r == find_land_etb(abilities@),
{
    proof {
        assert(abilities@.skip(0) =~= abilities@);
    }
    let mut i: usize = 0;
    while i < abilities.len()
        invariant
            0 <= i <= abilities@.len(),
            find_land_etb(abilities@) == find_land_etb(abilities@.skip(i as int)),
        decreases abilities@.len() - i,
    {
        proof {
            assert(abilities@.skip(i as int).drop_first() =~= abilities@.skip(i + 1));
            assert(abilities@.skip(i as int)[0] == abilities@[i as int]);
        }
        match &abilities[i] {
            Ability::Enters(e) => {
                if matches!(e, EntersAbility::Scry { .. } | EntersAbility::Surveil { .. }) {
                    return Some(*e);
                }
            },
            _ => (),
        }
        i = i + 1;
    }
    proof {
        assert(abilities@.skip(abilities@.len() as int) =~= Seq::<Ability>::empty());
    }
    None
}

/// The first bespoke effect in an ability list, if any.
pub open spec fn find_other_effect(s: Seq<Ability>) -> Option<Effect>
    decreases s.len(),
{
    if s.len() == 0 {
        None
    } else {
        match s[0] {
            Ability::Other(e) => Some(e),
            _ => find_other_effect(s.drop_first()),
        }
    }
}

/// The effect an instant-speed split face resolves with, if the card is the
/// one modeled kind of non-permanent spell: a split card whose left face is an
/// instant carrying a bespoke effect.
pub open spec fn spec_instant_effect(card: Card) -> Option<Effect> {
    match card {
        Card::Split(left, _) => if left.type_line is Instant {
            find_other_effect(left.abilities@)
        } else {
            None
        },
        _ => None,
    }
}

fn scan_other_effect(abilities: &Vec<Ability>) -> (r: Option<Effect>)
    ensures
        r == find_other_effect(abilities@),
{
    proof {
        assert(abilities@.skip(0) =~= abilities@);
    }
    let mut i: usize = 0;
    while i < abilities.len()
        invariant
            0 <= i <= abilities@.len(),
            find_other_effect(abilities@) == find_other_effect(abilities@.skip(i as int)),
        decreases abilities@.len() - i,
    {
        proof {
            assert(abilities@.skip(i as int).drop_first() =~= abilities@.skip(i + 1));
            assert(abilities@.skip(i as int)[0] == abilities@[i as int]);
        }
        match &abilities[i] {
            Ability::Other(e) => {
                return Some(*e);
            },
            _ => (),
        }
        i = i + 1;
    }
    proof {
        assert(abilities@.skip(abilities@.len() as int) =~= Seq::<Ability>::empty());
    }
    None
}

/// The first discover amount in an ability list, if any.
pub open spec fn find_discover(s: Seq<Ability>) -> Option<u8>
    decreases s.len(),
{
    if s.len() == 0 {
        None
    } else {
        match s[0] {
            Ability::Enters(EntersAbility::Discover { amount }) => Some(amount),
            _ => find_discover(s.drop_first()),
        }
    }
}

/// The discover amount a freshly cast spell resolves with: only single-faced
/// cards with a discover trigger are in scope.
pub open spec fn spec_discover_amount(card: Card) -> Option<u8> {
    match card {
        Card::Single(face) => find_discover(face.abilities@),
        _ => None,
    }
}

fn scan_discover(abilities: &Vec<Ability>) -> (r: Option<u8>)
    ensures
        r == find_discover(abilities@),
{
    proof {
        assert(abilities@.skip(0) =~= abilities@);
    }
    let mut i: usize = 0;
    while i < abilities.len()
        invariant
            0 <= i <= abilities@.len(),
            find_discover(abilities@) == find_discover(abilities@.skip(i as int)),
        decreases abilities@.len() - i,
    {
        proof {
            assert(abilities@.skip(i as int).drop_first() =~= abilities@.skip(i + 1));
            assert(abilities@.skip(i as int)[0] == abilities@[i as int]);
        }
        match &abilities[i] {
            Ability::Enters(EntersAbility::Discover { amount }) => {
                return Some(*amount);
            },
            _ => (),
        }
        i = i + 1;
    }
    proof {
        assert(abilities@.skip(abilities@.len() as int) =~= Seq::<Ability>::empty());
    }
    None
}

/// Whether a library card is what a discover of the given amount finds: a
/// nonland whose mana value does not exceed the amount.
pub open spec fn discover_hit(c: OwnedCard, amount: int) -> bool {
    !c.card.spec_is_land() && c.card.spec_mana_value() <= amount
}

/// The first library position a discover of the given amount finds among the
/// top `upto` cards, if any.
pub open spec fn first_discover_index(lib: Seq<OwnedCard>, amount: int, upto: int) -> Option<int>
    decreases upto,
{
    if upto <= 0 {
        None
    } else {
        match first_discover_index(lib, amount, upto - 1) {
            Some(i) => Some(i),
            None => if discover_hit(lib[upto - 1], amount) {
                Some(upto - 1)
            } else {
                None
            },
        }
    }
}

/// A first find stays the first find as the scan widens.
proof fn lemma_first_discover_index_stable(lib: Seq<OwnedCard>, amount: int, a: int, b: int)
    requires
        a <= b,
        first_discover_index(lib, amount, a) is Some,
    ensures
        first_discover_index(lib, amount, b) == first_discover_index(lib, amount, a),
    decreases b,
{
    if a < b && b > 0 {
        lemma_first_discover_index_stable(lib, amount, a, b - 1);
    }
}

} // verus!
