//! One game from opening hand to a terminal outcome: untap, draw, land drop,
//! spell casting, end-step triggers, and the victory or loss check, repeated
//! until the game ends. Decking -- drawing from an empty library -- is a
//! normal, typed loss, never a fault.

use vstd::prelude::*;
use crate::abilities::{Ability, Effect, EndStepAbility};
use crate::battlefield::{Battlefield, Event};
use crate::card::Card;
use crate::cast_spell::{appraiser_name, cast_spells, claim_name};
use crate::player::{OwnedCard, PlayerState};
use crate::shuffle::shuffle_cards;

verus! {

broadcast use vstd::seq_lib::group_to_multiset_ensures, vstd::multiset::group_multiset_axioms;

/// Where the game stands after a turn.
#[derive(Debug, Clone, Copy, PartialEq, Eq, Structural)]
pub enum GameFlow {
    Continue,
    Victory,
    Loss,
}

/// Builds the two-player game: the deck, shuffled, against a passive
/// opponent whose deck is sixty basic mountains.
pub fn initialize() -> (r: Battlefield)
    ensures
        r.wf(),
        r.players@.len() == 2,
        r.p0().id == crate::player::PlayerId(0),
        r.p1().id == crate::player::PlayerId(1),
        r.p0().life_total == 20,
        r.p1().life_total == 20,
        r.p0().zones.library@.len() == 60,
        r.p1().zones.library@.len() == 60,
        r.p0().zones.hand@.len() == 0,
        r.p1().zones.hand@.len() == 0,
        r.p0().zones.graveyard@.len() == 0,
        r.p1().zones.graveyard@.len() == 0,
        r.p0().zones.exile@.len() == 0,
        r.p1().zones.exile@.len() == 0,
        forall|i: int|
            0 <= i < 60 ==> (#[trigger] r.p0().zones.library@[i]).owner == crate::player::PlayerId(
                0,
            ),
        forall|i: int|
            0 <= i < 60 ==> (#[trigger] r.p1().zones.library@[i]).owner == crate::player::PlayerId(
                1,
            ) && r.p1().zones.library@[i].card.spec_primary_name() == Some("Mountain"@)
                && r.p1().zones.library@[i].card.spec_is_land(),
        r.objects@.len() == 0,
        r.log@.len() == 0,
{
    let player_deck = crate::deck::deck();
    let ghost deck0 = player_deck@;
    let mut gold_fish_deck: Vec<Card> = Vec::new();
    while gold_fish_deck.len() < 60
        invariant
            gold_fish_deck@.len() <= 60,
            forall|i: int|
                0 <= i < gold_fish_deck@.len() ==> (#[trigger] gold_fish_deck@[i]).wf() && (
                gold_fish_deck@[i]).spec_primary_name() == Some("Mountain"@) && (
                gold_fish_deck@[i]).spec_is_land(),
        decreases 60 - gold_fish_deck@.len(),
    {
        gold_fish_deck.push(crate::deck::mountain());
    }
    let ghost gold0 = gold_fish_deck@;
    let p0 = PlayerState::new(0, player_deck);
    let p1 = PlayerState::new(1, gold_fish_deck);
    proof {
        assert forall|i: int|
            0 <= i < p0.zones.library@.len() implies (#[trigger] p0.zones.library@[i]).wf() by {
            let c = p0.zones.library@[i].card;
            assert(deck0.contains(c));
            let j = choose|j: int| 0 <= j < deck0.len() && deck0[j] == c;
            assert(deck0[j].wf());
        }
        assert forall|i: int|
            0 <= i < p1.zones.library@.len() implies (#[trigger] p1.zones.library@[i]).wf() && (
            p1.zones.library@[i]).card.spec_primary_name() == Some("Mountain"@) && (
            p1.zones.library@[i]).card.spec_is_land() by {
            let c = p1.zones.library@[i].card;
            assert(gold0.contains(c));
            let j = choose|j: int| 0 <= j < gold0.len() && gold0[j] == c;
            assert(gold0[j].wf());
        }
    }
    let mut players: Vec<PlayerState> = Vec::new();
    players.push(p0);
    players.push(p1);
    Battlefield { players, objects: Vec::new(), log: Vec::new() }
}

/// How many of the first `upto` cards are lands.
pub open spec fn count_lands(hand: Seq<OwnedCard>, upto: int) -> int
    decreases upto,
{
    if upto <= 0 {
        0
    } else {
        count_lands(hand, upto - 1) + if hand[upto - 1].card.spec_is_land() {
            1int
        } else {
            0int
        }
    }
}

/// Whether some card in the hand bears the given primary name.
pub open spec fn hand_has_name(hand: Seq<OwnedCard>, name: Seq<char>) -> bool {
    exists|i: int|
        0 <= i < hand.len() && (#[trigger] hand[i]).card.spec_primary_name() == Some(name)
}

/// The keep-or-mulligan rule. Under the active threshold every hand is kept;
/// the stricter branches below the threshold keep a hand with the key
/// enchantment and two lands, or with the discover creature and three lands.
pub open spec fn spec_decide_to_keep(hand: Seq<OwnedCard>, n_keep: u8) -> bool {
    if n_keep < 8 {
        true
    } else {
        ||| (count_lands(hand, hand.len() as int) >= 2 && hand_has_name(
            hand,
            "Duskmourn's Claim"@,
        ))
        ||| (count_lands(hand, hand.len() as int) >= 3 && hand_has_name(
            hand,
            "Geological Appraiser"@,
        ))
    }
}

pub fn decide_to_keep(hand: &Vec<OwnedCard>, n_keep: u8) -> (r: bool)
    ensures
        r == spec_decide_to_keep(hand@, n_keep),
{
    if n_keep < 8 {
        return true;
    }
    let claim = claim_name();
    let appraiser = appraiser_name();
    let mut has_claim = false;
    let mut has_appraiser = false;
    let mut n_lands: usize = 0;
    let mut i: usize = 0;
    while i < hand.len()
        invariant
            0 <= i <= hand@.len(),
            claim@ == "Duskmourn's Claim"@,
            appraiser@ == "Geological Appraiser"@,
            has_claim <==> exists|j: int|
                0 <= j < i && (#[trigger] hand@[j]).card.spec_primary_name() == Some(claim@),
            has_appraiser <==> exists|j: int|
                0 <= j < i && (#[trigger] hand@[j]).card.spec_primary_name() == Some(appraiser@),
            n_lands as int == count_lands(hand@, i as int),
            n_lands <= i,
        decreases hand@.len() - i,
    {
        if crate::cast_spell::card_has_primary_name(&hand[i].card, &claim) {
            has_claim = true;
        }
        if crate::cast_spell::card_has_primary_name(&hand[i].card, &appraiser) {
            has_appraiser = true;
        }
        if hand[i].card.is_land() {
            n_lands = n_lands + 1;
        }
        i = i + 1;
    }
    (n_lands >= 2 && has_claim) || (n_lands >= 3 && has_appraiser)
}

/// Shuffles the hand and the library back together into a fresh library,
/// leaving the hand empty; nothing else about the player changes.
pub fn mulligan(player: &mut PlayerState)
    ensures
        final(player).id == old(player).id,
        final(player).life_total == old(player).life_total,
        final(player).zones.graveyard == old(player).zones.graveyard,
        final(player).zones.exile == old(player).zones.exile,
        final(player).zones.hand@.len() == 0,
        final(player).zones.library@.len() == old(player).zones.hand@.len() + old(
            player,
        ).zones.library@.len(),
        final(player).zones.library@.to_multiset() == old(player).zones.hand@.to_multiset().add(
            old(player).zones.library@.to_multiset(),
        ),
{
    let ghost hand0 = player.zones.hand@;
    let ghost lib0 = player.zones.library@;
    let mut pile: Vec<OwnedCard> = Vec::new();
    while player.zones.hand.len() > 0
        invariant
            player.id == old(player).id,
            player.life_total == old(player).life_total,
            player.zones.graveyard == old(player).zones.graveyard,
            player.zones.exile == old(player).zones.exile,
            player.zones.library@ == lib0,
            pile@.len() + player.zones.hand@.len() == hand0.len(),
            pile@.to_multiset().add(player.zones.hand@.to_multiset()) =~= hand0.to_multiset(),
        decreases player.zones.hand@.len(),
    {
        let ghost oldhand = player.zones.hand@;
        let ghost oldpile = pile@;
        let c = player.zones.hand.pop().unwrap();
        pile.push(c);
        proof {
            assert(player.zones.hand@ =~= oldhand.remove(oldhand.len() - 1));
            assert(oldhand.remove(oldhand.len() - 1).to_multiset() =~= oldhand.to_multiset()
                .remove(oldhand[oldhand.len() - 1]));
            assert(pile@ =~= oldpile.push(c));
            assert(oldpile.push(c).to_multiset() =~= oldpile.to_multiset().insert(c));
            assert(oldhand.contains(oldhand[oldhand.len() - 1]));
            assert(oldhand.to_multiset().count(c) > 0);
            assert(pile@.to_multiset().add(player.zones.hand@.to_multiset())
                =~= hand0.to_multiset());
        }
    }
    proof {
        assert(player.zones.hand@.to_multiset().len() == 0);
        assert(pile@.to_multiset() =~= hand0.to_multiset());
    }
    while player.zones.library.len() > 0
        invariant
            player.id == old(player).id,
            player.life_total == old(player).life_total,
            player.zones.graveyard == old(player).zones.graveyard,
            player.zones.exile == old(player).zones.exile,
            player.zones.hand@.len() == 0,
            pile@.len() == hand0.len() + lib0.len() - player.zones.library@.len(),
            pile@.to_multiset().add(player.zones.library@.to_multiset()) =~= hand0.to_multiset()
                .add(lib0.to_multiset()),
        decreases player.zones.library@.len(),
    {
        let ghost oldlib = player.zones.library@;
        let ghost oldpile = pile@;
        let c = player.zones.library.pop_front().unwrap();
        pile.push(c);
        proof {
            assert(player.zones.library@ =~= oldlib.remove(0));
            assert(oldlib.remove(0).to_multiset() =~= oldlib.to_multiset().remove(oldlib[0]));
            assert(pile@ =~= oldpile.push(c));
            assert(oldpile.push(c).to_multiset() =~= oldpile.to_multiset().insert(c));
            assert(oldlib.contains(oldlib[0]));
            assert(oldlib.to_multiset().count(c) > 0);
            assert(pile@.to_multiset().add(player.zones.library@.to_multiset())
                =~= hand0.to_multiset().add(lib0.to_multiset()));
        }
    }
    proof {
        assert(player.zones.library@.to_multiset().len() == 0);
        assert(pile@.to_multiset() =~= hand0.to_multiset().add(lib0.to_multiset()));
    }
    shuffle_cards(&mut pile);
    let ghost shuffled = pile@;
    let mut pile = pile;
    while pile.len() > 0
        invariant
            player.id == old(player).id,
            player.life_total == old(player).life_total,
            player.zones.graveyard == old(player).zones.graveyard,
            player.zones.exile == old(player).zones.exile,
            player.zones.hand@.len() == 0,
            player.zones.library@.len() + pile@.len() == shuffled.len(),
            shuffled.len() == hand0.len() + lib0.len(),
            shuffled.to_multiset() == hand0.to_multiset().add(lib0.to_multiset()),
            player.zones.library@.to_multiset().add(pile@.to_multiset())
                =~= shuffled.to_multiset(),
        decreases pile@.len(),
    {
        let ghost oldpile = pile@;
        let ghost oldlib = player.zones.library@;
        let c = pile.pop().unwrap();
        player.zones.library.push_back(c);
        proof {
            assert(pile@ =~= oldpile.remove(oldpile.len() - 1));
            assert(oldpile.remove(oldpile.len() - 1).to_multiset() =~= oldpile.to_multiset()
                .remove(oldpile[oldpile.len() - 1]));
            assert(player.zones.library@ =~= oldlib.push(c));
            assert(oldlib.push(c).to_multiset() =~= oldlib.to_multiset().insert(c));
            assert(oldpile.contains(c));
            assert(oldpile.to_multiset().count(c) > 0);
            assert(player.zones.library@.to_multiset().add(pile@.to_multiset())
                =~= shuffled.to_multiset());
        }
    }
    proof {
        assert(pile@.to_multiset().len() == 0);
        assert(player.zones.library@.to_multiset() =~= shuffled.to_multiset());
        assert(player.zones.library@.to_multiset().len() == player.zones.library@.len());
        assert(shuffled.to_multiset().len() == shuffled.len());
    }
}

} // verus!

verus! {

/// Draws the opening hand: seven cards, then the keep-or-mulligan decision;
/// a mulligan shuffles everything back, redraws, and bottoms one card per
/// mulligan taken. Under the active threshold the first hand is always kept.
pub fn opening_hand(battlefield: &mut Battlefield)
    requires
        old(battlefield).wf(),
        old(battlefield).p0().zones.hand@.len() == 0,
        old(battlefield).p0().zones.library@.len() >= 7,
    ensures
        final(battlefield).wf(),
        final(battlefield).players@.len() == 2,
        final(battlefield).p0().id == old(battlefield).p0().id,
        final(battlefield).p1() == old(battlefield).p1(),
        final(battlefield).objects == old(battlefield).objects,
        final(battlefield).p0().life_total == old(battlefield).p0().life_total,
        final(battlefield).p0().zones.graveyard == old(battlefield).p0().zones.graveyard,
        final(battlefield).p0().zones.exile == old(battlefield).p0().zones.exile,
        final(battlefield).p0().zones.hand@ == old(battlefield).p0().zones.library@.take(7),
        final(battlefield).p0().zones.library@ == old(battlefield).p0().zones.library@.skip(7),
        old(battlefield).log@.is_prefix_of(final(battlefield).log@),
        final(battlefield).log@.len() == old(battlefield).log@.len() + 7,
        forall|j: int|
            old(battlefield).log@.len() <= j < final(battlefield).log@.len()
                ==> (#[trigger] final(battlefield).log@[j]) matches Event::Draw(_),
{
    let mut n_keep: u8 = 7;
    loop
        invariant_except_break
            *battlefield == *old(battlefield),
            battlefield.wf(),
            battlefield.p0().zones.hand@.len() == 0,
            battlefield.p0().zones.library@.len() >= 7,
        invariant
            n_keep == 7,
        ensures
            n_keep == 7,
            battlefield.wf(),
            battlefield.players@.len() == 2,
            battlefield.p0().id == old(battlefield).p0().id,
            battlefield.p1() == old(battlefield).p1(),
            battlefield.objects == old(battlefield).objects,
            battlefield.p0().life_total == old(battlefield).p0().life_total,
            battlefield.p0().zones.graveyard == old(battlefield).p0().zones.graveyard,
            battlefield.p0().zones.exile == old(battlefield).p0().zones.exile,
            battlefield.p0().zones.hand@ == old(battlefield).p0().zones.library@.take(7),
            battlefield.p0().zones.library@ == old(battlefield).p0().zones.library@.skip(7),
            old(battlefield).log@.is_prefix_of(battlefield.log@),
            battlefield.log@.len() == old(battlefield).log@.len() + 7,
            forall|j: int|
                old(battlefield).log@.len() <= j < battlefield.log@.len()
                    ==> (#[trigger] battlefield.log@[j]) matches Event::Draw(_),
        decreases n_keep,
    {
        let ghost lib_entry = battlefield.p0().zones.library@;
        let mut drawn: Vec<OwnedCard> = Vec::new();
        let mut d: usize = 0;
        while d < 7
            invariant
                0 <= d <= 7,
                lib_entry == old(battlefield).p0().zones.library@,
                lib_entry.len() >= 7,
                battlefield.players@.len() == 2,
                battlefield.wf(),
                battlefield.p0().id == old(battlefield).p0().id,
                battlefield.p1() == old(battlefield).p1(),
                battlefield.objects == old(battlefield).objects,
                battlefield.p0().life_total == old(battlefield).p0().life_total,
                battlefield.p0().zones.graveyard == old(battlefield).p0().zones.graveyard,
                battlefield.p0().zones.exile == old(battlefield).p0().zones.exile,
                battlefield.p0().zones.hand@.len() == 0,
                battlefield.p0().zones.library@ == lib_entry.skip(d as int),
                drawn@ == lib_entry.take(d as int),
                old(battlefield).log@.is_prefix_of(battlefield.log@),
                battlefield.log@.len() == old(battlefield).log@.len() + d,
                forall|j: int|
                    old(battlefield).log@.len() <= j < battlefield.log@.len()
                        ==> (#[trigger] battlefield.log@[j]) matches Event::Draw(_),
            decreases 7 - d,
        {
            let ghost pre_lib = battlefield.p0().zones.library@;
            let ghost pre_log = battlefield.log@;
            let c = battlefield.players[0].zones.library.pop_front().unwrap();
            let ev = c.clone();
            battlefield.log.push(Event::Draw(ev));
            drawn.push(c);
            proof {
                assert(battlefield.p0().zones.library@ =~= lib_entry.skip(d + 1));
                assert(drawn@ =~= lib_entry.take(d + 1));
                crate::battlefield::lemma_prefix_push(pre_log, battlefield.log@.last());
                crate::battlefield::lemma_prefix_trans(
                    old(battlefield).log@,
                    pre_log,
                    battlefield.log@,
                );
            }
            d = d + 1;
        }
        battlefield.players[0].zones.hand = drawn;
        proof {
            assert forall|x: int|
                0 <= x < battlefield.p0().zones.hand@.len() implies (#[trigger] battlefield.p0()
                .zones.hand@[x]).wf() by {
                assert(battlefield.p0().zones.hand@[x] == lib_entry.take(7)[x]);
                assert(lib_entry[x].wf());
            }
        }
        if decide_to_keep(&battlefield.players[0].zones.hand, n_keep) {
            break;
        }
        let pid = battlefield.players[0].id;
        battlefield.log.push(Event::Mulligan(pid));
        mulligan(&mut battlefield.players[0]);
        n_keep = n_keep - 1;
    }

    // Bottom one card per mulligan taken: a big spell first, else a land,
    // else the first card. Under the active threshold no mulligan is ever
    // taken, so this loop runs zero times.
    while n_keep < 7
        invariant
            n_keep == 7,
            battlefield.wf(),
            battlefield.players@.len() == 2,
            battlefield.p0().id == old(battlefield).p0().id,
            battlefield.p1() == old(battlefield).p1(),
            battlefield.objects == old(battlefield).objects,
            battlefield.p0().life_total == old(battlefield).p0().life_total,
            battlefield.p0().zones.graveyard == old(battlefield).p0().zones.graveyard,
            battlefield.p0().zones.exile == old(battlefield).p0().zones.exile,
            battlefield.p0().zones.hand@ == old(battlefield).p0().zones.library@.take(7),
            battlefield.p0().zones.library@ == old(battlefield).p0().zones.library@.skip(7),
            old(battlefield).log@.is_prefix_of(battlefield.log@),
            battlefield.log@.len() == old(battlefield).log@.len() + 7,
            forall|j: int|
                old(battlefield).log@.len() <= j < battlefield.log@.len()
                    ==> (#[trigger] battlefield.log@[j]) matches Event::Draw(_),
        decreases 7 - n_keep,
    {
        let hand_len = battlefield.players[0].zones.hand.len();
        let mut index: usize = 0;
        let mut chosen = false;
        let mut i: usize = 0;
        while i < hand_len
            invariant
                0 <= i <= hand_len,
                battlefield.wf(),
                hand_len == battlefield.p0().zones.hand@.len(),
                chosen ==> index < hand_len,
            decreases hand_len - i,
        {
            if !chosen && battlefield.players[0].zones.hand[i].card.mana_value() > 4 {
                index = i;
                chosen = true;
            }
            i = i + 1;
        }
        let mut i: usize = 0;
        while i < hand_len
            invariant
                0 <= i <= hand_len,
                battlefield.wf(),
                hand_len == battlefield.p0().zones.hand@.len(),
                chosen ==> index < hand_len,
            decreases hand_len - i,
        {
            if !chosen && battlefield.players[0].zones.hand[i].card.is_land() {
                index = i;
                chosen = true;
            }
            i = i + 1;
        }
        let card = battlefield.players[0].zones.hand.remove(index);
        battlefield.players[0].zones.library.push_back(card);
        n_keep = n_keep + 1;
    }
}

/// The bespoke end-of-step effects carried by the first `upto` abilities.
pub open spec fn end_step_effects(abilities: Seq<Ability>, upto: int) -> Seq<Effect>
    decreases upto,
{
    if upto <= 0 {
        Seq::empty()
    } else {
        let rest = end_step_effects(abilities, upto - 1);
        match abilities[upto - 1] {
            Ability::EndStep(EndStepAbility::Other(e)) => rest.push(e),
            _ => rest,
        }
    }
}

/// Appends every end-of-step effect in the ability list.
pub fn push_end_step_abilities(end_step_effects_out: &mut Vec<Effect>, abilities: &Vec<Ability>)
    ensures
        final(end_step_effects_out)@ == old(end_step_effects_out)@ + end_step_effects(
            abilities@,
            abilities@.len() as int,
        ),
{
    let ghost base = end_step_effects_out@;
    let mut i: usize = 0;
    while i < abilities.len()
        invariant
            0 <= i <= abilities@.len(),
            end_step_effects_out@ == base + end_step_effects(abilities@, i as int),
        decreases abilities@.len() - i,
    {
        match &abilities[i] {
            Ability::EndStep(EndStepAbility::Other(e)) => {
                end_step_effects_out.push(*e);
                proof {
                    assert(end_step_effects_out@ =~= base + end_step_effects(
                        abilities@,
                        i as int + 1,
                    ));
                }
            },
            _ => {
                proof {
                    assert(end_step_effects(abilities@, i as int + 1) == end_step_effects(
                        abilities@,
                        i as int,
                    ));
                }
            },
        }
        i = i + 1;
    }
    proof {
        assert(base + end_step_effects(abilities@, abilities@.len() as int)
            == end_step_effects_out@);
    }
}

} // verus!

verus! {

/// One whole turn: untap, draw (an empty library is an immediate loss), the
/// land drop, spell casting, end-of-step triggers on every object in play,
/// and the victory check against the opponent's life total.
pub fn turn_cycle(battlefield: &mut Battlefield) -> (r: GameFlow)
    requires
        old(battlefield).wf(),
    ensures
        final(battlefield).wf(),
        final(battlefield).players@.len() == 2,
        final(battlefield).p0().id == old(battlefield).p0().id,
        final(battlefield).p1().id == old(battlefield).p1().id,
        final(battlefield).p0().zones.library@.len() <= old(battlefield).p0().zones.library@.len(),
        final(battlefield).p1().zones.library@.len() <= old(battlefield).p1().zones.library@.len(),
        (r is Loss) <==> old(battlefield).p0().zones.library@.len() == 0,
        (r is Continue) ==> final(battlefield).p0().zones.library@.len() < old(
            battlefield,
        ).p0().zones.library@.len(),
        (r is Victory) ==> final(battlefield).p1().life_total <= 0,
        (r is Continue) ==> final(battlefield).p1().life_total > 0,
        old(battlefield).log@.is_prefix_of(final(battlefield).log@),
        final(battlefield).log@.len() > old(battlefield).log@.len(),
        final(battlefield).log@[old(battlefield).log@.len() as int] == Event::StartTurn(
            old(battlefield).p0().id,
        ),
        (r is Continue) ==> final(battlefield).log@.last() == Event::EndTurn(
            old(battlefield).p0().id,
        ),
        final(battlefield).objects@.len() >= old(battlefield).objects@.len(),
        forall|i: int|
            0 <= i < old(battlefield).objects@.len() ==> (#[trigger] final(battlefield).objects@[i]).card
                == old(battlefield).objects@[i].card,
        crate::battlefield::p0_card_count(*final(battlefield)) == crate::battlefield::p0_card_count(
            *old(battlefield),
        ),
        crate::battlefield::p1_card_count(*final(battlefield)) == crate::battlefield::p1_card_count(
            *old(battlefield),
        ),
        (r is Loss) ==> final(battlefield).objects@.len() == old(battlefield).objects@.len() && (
        forall|i: int|
            0 <= i < old(battlefield).objects@.len() ==> #[trigger] final(battlefield).objects@[i]
                == crate::battlefield::untap_obj(old(battlefield).objects@[i]))
            && final(battlefield).p0().life_total == old(battlefield).p0().life_total
            && final(battlefield).p0().zones.hand == old(battlefield).p0().zones.hand
            && final(battlefield).p0().zones.library@ == old(battlefield).p0().zones.library@
            && final(battlefield).p0().zones.graveyard == old(battlefield).p0().zones.graveyard
            && final(battlefield).p0().zones.exile == old(battlefield).p0().zones.exile
            && final(battlefield).p1() == old(battlefield).p1(),
{
    let pid = battlefield.players[0].id;
    battlefield.log.push(Event::StartTurn(pid));
    let ghost log1 = battlefield.log@;
    proof {
        crate::battlefield::lemma_prefix_push(old(battlefield).log@, battlefield.log@.last());
        assert(log1[old(battlefield).log@.len() as int] == Event::StartTurn(pid));
        crate::battlefield::lemma_prefix_refl(log1);
    }

    // Untap every object.
    let ghost objects0 = battlefield.objects@;
    let n_objects = battlefield.objects.len();
    let mut t: usize = 0;
    while t < n_objects
        invariant
            0 <= t <= n_objects,
            n_objects == battlefield.objects@.len(),
            n_objects == objects0.len(),
            battlefield.players == old(battlefield).players,
            old(battlefield).wf(),
            log1.is_prefix_of(battlefield.log@),
            forall|x: int| #![trigger objects0[x]]
                0 <= x < n_objects ==> battlefield.objects@[x] == (if x < t {
                    crate::battlefield::untap_obj(objects0[x])
                } else {
                    objects0[x]
                }),
        decreases n_objects - t,
    {
        let ghost pre_objects = battlefield.objects@;
        if battlefield.objects[t].tapped {
            let ghost pre_log = battlefield.log@;
            let ev = battlefield.objects[t].clone();
            battlefield.log.push(Event::Untap(ev));
            proof {
                crate::battlefield::lemma_prefix_push(pre_log, battlefield.log@.last());
                crate::battlefield::lemma_prefix_trans(log1, pre_log, battlefield.log@);
            }
        }
        battlefield.objects[t].tapped = false;
        proof {
            assert(battlefield.objects@[t as int] == crate::battlefield::untap_obj(
                objects0[t as int],
            ));
            assert forall|x: int| #![trigger objects0[x]]
                0 <= x < n_objects implies battlefield.objects@[x] == (if x < t + 1 {
                crate::battlefield::untap_obj(objects0[x])
            } else {
                objects0[x]
            }) by {
                if x != t {
                    assert(battlefield.objects@[x] == pre_objects[x]);
                }
            }
        }
        t = t + 1;
    }
    proof {
        assert forall|x: int|
            0 <= x < battlefield.objects@.len() implies (#[trigger] battlefield.objects@[x]).card
            .wf() by {
            assert(old(battlefield).objects@[x].card.wf());
            assert(objects0[x].card.wf());
        }
        assert(battlefield.wf());
    }

    // Draw for turn; drawing from an empty library loses the game at once.
    let drew = battlefield.players[0].draw_a_card();
    match drew {
        Err(_) => {
            proof {
                assert(battlefield.log@[old(battlefield).log@.len() as int] == log1[old(
                    battlefield,
                ).log@.len() as int]) by {
                    assert(log1 =~= battlefield.log@.subrange(0, log1.len() as int));
                }
                crate::battlefield::lemma_prefix_trans(
                    old(battlefield).log@,
                    log1,
                    battlefield.log@,
                );
            }
            return GameFlow::Loss;
        },
        Ok(_) => (),
    }
    proof {
        assert forall|x: int|
            0 <= x < battlefield.p0().zones.hand@.len() implies (#[trigger] battlefield.p0().zones
            .hand@[x]).wf() by {
            let oldp = old(battlefield).p0();
            if x < oldp.zones.hand@.len() {
                assert(oldp.zones.hand@[x].wf());
            } else {
                assert(oldp.zones.library@[0].wf());
            }
        }
    }
    let hand_len = battlefield.players[0].zones.hand.len();
    let ev = battlefield.players[0].zones.hand[hand_len - 1].clone();
    let ghost log_drawn = battlefield.log@;
    let ghost obj_drawn = battlefield.objects@;
    battlefield.log.push(Event::Draw(ev));
    proof {
        crate::battlefield::lemma_prefix_push(log_drawn, battlefield.log@.last());
        crate::battlefield::lemma_prefix_trans(log1, log_drawn, battlefield.log@);
    }
    let ghost log_before_land = battlefield.log@;
    crate::play_land::play_a_land(battlefield);
    proof {
        crate::battlefield::lemma_prefix_trans(log1, log_before_land, battlefield.log@);
        assert forall|i: int|
            0 <= i < old(battlefield).objects@.len() implies (#[trigger] battlefield.objects@[i]).card
            == old(battlefield).objects@[i].card by {
            assert(battlefield.objects@[i] == obj_drawn[i]);
            assert(obj_drawn[i] == crate::battlefield::untap_obj(old(battlefield).objects@[i]));
        }
    }
    let ghost log_before_casts = battlefield.log@;
    let ghost obj_before_casts = battlefield.objects@;
    cast_spells(battlefield);
    proof {
        crate::battlefield::lemma_prefix_trans(log1, log_before_casts, battlefield.log@);
        assert forall|i: int|
            0 <= i < old(battlefield).objects@.len() implies (#[trigger] battlefield.objects@[i]).card
            == old(battlefield).objects@[i].card by {
            assert(battlefield.objects@[i].card == obj_before_casts[i].card);
        }
    }

    // Resolve every end-of-step trigger on any object in play, including both
    // faces of split permanents, in battlefield order.
    let mut effects: Vec<Effect> = Vec::new();
    let ghost mid_bf = *battlefield;
    let n_objects = battlefield.objects.len();
    let mut t: usize = 0;
    while t < n_objects
        invariant
            0 <= t <= n_objects,
            n_objects == battlefield.objects@.len(),
            *battlefield == mid_bf,
        decreases n_objects - t,
    {
        match &battlefield.objects[t].card.card {
            Card::Single(face) => {
                push_end_step_abilities(&mut effects, &face.abilities);
            },
            Card::Split(left_face, right_face) => {
                push_end_step_abilities(&mut effects, &left_face.abilities);
                push_end_step_abilities(&mut effects, &right_face.abilities);
            },
            _ => (),
        }
        t = t + 1;
    }
    let ghost before_end = *battlefield;
    let n_effects = effects.len();
    let mut e: usize = 0;
    while e < n_effects
        invariant
            0 <= e <= n_effects,
            n_effects == effects@.len(),
            battlefield.wf(),
            battlefield.players@.len() == 2,
            battlefield.p0().id == before_end.p0().id,
            battlefield.p1().id == before_end.p1().id,
            battlefield.p0().zones.library@.len() <= before_end.p0().zones.library@.len(),
            battlefield.p1().zones.library@.len() <= before_end.p1().zones.library@.len(),
            battlefield.objects == before_end.objects,
            crate::battlefield::p0_card_count(*battlefield) == crate::battlefield::p0_card_count(
                before_end,
            ),
            crate::battlefield::p1_card_count(*battlefield) == crate::battlefield::p1_card_count(
                before_end,
            ),
            log1.is_prefix_of(battlefield.log@),
        decreases n_effects - e,
    {
        let ghost log_pre = battlefield.log@;
        battlefield.apply_effect(effects[e]);
        proof {
            crate::battlefield::lemma_prefix_trans(log1, log_pre, battlefield.log@);
        }
        e = e + 1;
    }

    // Check victory.
    proof {
        crate::battlefield::lemma_prefix_trans(old(battlefield).log@, log1, battlefield.log@);
        assert(battlefield.log@[old(battlefield).log@.len() as int] == log1[old(
            battlefield,
        ).log@.len() as int]) by {
            assert(log1 =~= battlefield.log@.subrange(0, log1.len() as int));
        }
        assert forall|i: int|
            0 <= i < old(battlefield).objects@.len() implies (#[trigger] battlefield.objects@[i]).card
            == old(battlefield).objects@[i].card by {
            assert(battlefield.objects@[i] == before_end.objects@[i]);
        }
    }
    if battlefield.players[1].life_total <= 0 {
        GameFlow::Victory
    } else {
        let ghost log_end = battlefield.log@;
        battlefield.log.push(Event::EndTurn(pid));
        proof {
            crate::battlefield::lemma_prefix_push(log_end, battlefield.log@.last());
            crate::battlefield::lemma_prefix_trans(log1, log_end, battlefield.log@);
            crate::battlefield::lemma_prefix_trans(old(battlefield).log@, log1, battlefield.log@);
            assert(battlefield.log@[old(battlefield).log@.len() as int] == log1[old(
                battlefield,
            ).log@.len() as int]) by {
                assert(log1 =~= battlefield.log@.subrange(0, log1.len() as int));
            }
        }
        GameFlow::Continue
    }
}

/// Runs one whole game and reports the number of turns it took: positive for
/// a win, negated for a loss, never zero. The library shrinks every turn, so
/// the game always ends; with the sixty-card deck it ends within 54 turns.
pub fn simulation_run() -> (r: isize)
    ensures
        r != 0,
        -54 <= r <= 54,
{
    let mut battlefield = initialize();
    opening_hand(&mut battlefield);
    assert(battlefield.p0().zones.library@.len() == 53);

    let mut turn: isize = 0;
    loop
        invariant
            battlefield.wf(),
            0 <= turn,
            turn + battlefield.p0().zones.library@.len() <= 53,
        decreases battlefield.p0().zones.library@.len(),
    {
        turn = turn + 1;
        match turn_cycle(&mut battlefield) {
            GameFlow::Continue => (),
            GameFlow::Victory => {
                return turn;
            },
            GameFlow::Loss => {
                return -turn;
            },
        }
    }
}

} // verus!
