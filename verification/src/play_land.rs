//! The land-drop heuristic: which land to play this turn, and where a scried
//! or surveilled card goes.
//!
//! Lands in hand are ranked by a three-key lexicographic preference that
//! changes with the game phase; the top-ranked land is played, ties broken by
//! hand order, and its scry or surveil trigger is resolved on the spot.

use vstd::prelude::*;
use crate::abilities::{Ability, EntersAbility, ManaProduction};
use crate::battlefield::{spec_land_etb, Battlefield, Event};
use crate::card::{Card, CardFace};
use crate::cast_spell::{claim_name, first_name_index};
use crate::mana_cost::Unit;
use crate::player::{OwnedCard, PlayerState};
use crate::types::{LandSubtypes, Type};

verus! {

/// The face the land heuristics inspect: a single card's face or an
/// adventure card's primary face.
pub open spec fn spec_heuristic_face(c: Card) -> Option<CardFace> {
    match c {
        Card::Single(face) => Some(face),
        Card::Adventure { primary, .. } => Some(primary),
        _ => None,
    }
}

pub open spec fn spec_enters_tapped(c: OwnedCard) -> bool {
    c.card.spec_enters_tapped()
}

pub open spec fn spec_enters_untapped(c: OwnedCard) -> bool {
    !c.card.spec_enters_tapped()
}

/// Whether an ability is a scry or surveil trigger on entering play.
pub open spec fn is_scry_like(a: Ability) -> bool {
    ||| a matches Ability::Enters(EntersAbility::Scry { .. })
    ||| a matches Ability::Enters(EntersAbility::Surveil { .. })
}

pub open spec fn spec_has_scry_etb(c: OwnedCard) -> bool {
    match spec_heuristic_face(c.card) {
        Some(face) => exists|i: int| 0 <= i < face.abilities@.len() && is_scry_like(
            #[trigger] face.abilities@[i],
        ),
        None => false,
    }
}

/// Whether an ability produces black mana at no extra cost.
pub open spec fn is_free_black_source(a: Ability) -> bool {
    match a {
        Ability::Mana(ma) => ma.cost.mana_cost is None && match ma.produce {
            ManaProduction::Single { possible } => possible@.contains(Unit::Black),
        },
        _ => false,
    }
}

/// A black-producing land: a swamp by subtype, or a land with a free
/// black-producing mana ability.
pub open spec fn spec_produces_black(c: OwnedCard) -> bool {
    match spec_heuristic_face(c.card) {
        Some(face) => match face.type_line {
            Type::Land(properties) => properties.subtypes@.contains(LandSubtypes::Swamp) || (
            exists|i: int|
                0 <= i < face.abilities@.len() && is_free_black_source(
                    #[trigger] face.abilities@[i],
                )),
            _ => false,
        },
        None => false,
    }
}

pub fn enters_tapped(card: &OwnedCard) -> (r: bool)
    ensures
        r == spec_enters_tapped(*card),
{
    card.card.enters_tapped()
}

pub fn enters_untapped(card: &OwnedCard) -> (r: bool)
    ensures
        r == spec_enters_untapped(*card),
{
    !card.card.enters_tapped()
}

fn scan_scry_like(abilities: &Vec<Ability>) -> (r: bool)
    ensures
        r == exists|i: int|
            0 <= i < abilities@.len() && is_scry_like(#[trigger] abilities@[i]),
{
    let mut i: usize = 0;
    while i < abilities.len()
        invariant
            0 <= i <= abilities@.len(),
            forall|j: int| 0 <= j < i ==> !is_scry_like(#[trigger] abilities@[j]),
        decreases abilities@.len() - i,
    {
        if matches!(
            abilities[i],
            Ability::Enters(EntersAbility::Scry { .. }) | Ability::Enters(
                EntersAbility::Surveil { .. },
            )
        ) {
            assert(is_scry_like(abilities@[i as int]));
            return true;
        }
        i = i + 1;
    }
    false
}

pub fn has_scry_etb(card: &OwnedCard) -> (r: bool)
    ensures
        r == spec_has_scry_etb(*card),
{
    match &card.card {
        Card::Single(face) => scan_scry_like(&face.abilities),
        Card::Adventure { primary, .. } => scan_scry_like(&primary.abilities),
        _ => false,
    }
}

fn scan_free_black(abilities: &Vec<Ability>) -> (r: bool)
    ensures
        r == exists|i: int|
            0 <= i < abilities@.len() && is_free_black_source(#[trigger] abilities@[i]),
{
    let mut i: usize = 0;
    while i < abilities.len()
        invariant
            0 <= i <= abilities@.len(),
            forall|j: int| 0 <= j < i ==> !is_free_black_source(#[trigger] abilities@[j]),
        decreases abilities@.len() - i,
    {
        match &abilities[i] {
            Ability::Mana(ma) => {
                if ma.cost.mana_cost.is_none() {
                    let ManaProduction::Single { possible } = &ma.produce;
                    let mut j: usize = 0;
                    let mut found: bool = false;
                    while j < possible.len()
                        invariant
                            0 <= j <= possible@.len(),
                            found <==> exists|t: int| 0 <= t < j && possible@[t] == Unit::Black,
                        decreases possible@.len() - j,
                    {
                        if possible[j] == Unit::Black {
                            found = true;
                        }
                        j = j + 1;
                    }
                    if found {
                        assert(possible@.contains(Unit::Black));
                        assert(is_free_black_source(abilities@[i as int]));
                        return true;
                    }
                    assert(!possible@.contains(Unit::Black));
                }
            },
            _ => (),
        }
        i = i + 1;
    }
    false
}

pub fn produces_black(card: &OwnedCard) -> (r: bool)
    ensures
        r == spec_produces_black(*card),
{
    let face = match &card.card {
        Card::Single(face) => face,
        Card::Adventure { primary, .. } => primary,
        _ => {
            return false;
        },
    };
    let properties = match &face.type_line {
        Type::Land(properties) => properties,
        _ => {
            return false;
        },
    };
    let mut j: usize = 0;
    let mut is_swamp: bool = false;
    while j < properties.subtypes.len()
        invariant
            0 <= j <= properties.subtypes@.len(),
            is_swamp <==> exists|t: int|
                0 <= t < j && properties.subtypes@[t] == LandSubtypes::Swamp,
        decreases properties.subtypes@.len() - j,
    {
        if properties.subtypes[j] == LandSubtypes::Swamp {
            is_swamp = true;
        }
        j = j + 1;
    }
    if is_swamp {
        assert(properties.subtypes@.contains(LandSubtypes::Swamp));
        return true;
    }
    assert(!properties.subtypes@.contains(LandSubtypes::Swamp));
    scan_free_black(&face.abilities)
}

} // verus!

verus! {

/// The rank of a land under the phase's three-key preference: lower is
/// better, and each earlier key dominates the later ones.
pub open spec fn land_rank(c: OwnedCard, is_turn_1: bool, claim_in_play: bool) -> int {
    let keys = if is_turn_1 {
        (spec_enters_tapped(c), spec_produces_black(c), spec_has_scry_etb(c))
    } else if claim_in_play {
        (spec_has_scry_etb(c), spec_enters_untapped(c), spec_produces_black(c))
    } else {
        (spec_produces_black(c), spec_enters_untapped(c), spec_has_scry_etb(c))
    };
    (if keys.0 {
        0int
    } else {
        4int
    }) + (if keys.1 {
        0int
    } else {
        2int
    }) + (if keys.2 {
        0int
    } else {
        1int
    })
}

/// The best-ranked land among the first `upto` cards of the hand: its index
/// and rank, the earliest land on ties.
pub open spec fn best_land(
    hand: Seq<OwnedCard>,
    is_turn_1: bool,
    claim_in_play: bool,
    upto: int,
) -> Option<(int, int)>
    decreases upto,
{
    if upto <= 0 {
        None
    } else {
        let prev = best_land(hand, is_turn_1, claim_in_play, upto - 1);
        let i = upto - 1;
        if hand[i].card.spec_is_land() {
            let rk = land_rank(hand[i], is_turn_1, claim_in_play);
            match prev {
                None => Some((i, rk)),
                Some((j, rj)) => if rk < rj {
                    Some((i, rk))
                } else {
                    Some((j, rj))
                },
            }
        } else {
            prev
        }
    }
}

fn rank_of(card: &OwnedCard, is_turn_1: bool, claim_in_play: bool) -> (r: u8)
    ensures
        r as int == land_rank(*card, is_turn_1, claim_in_play),
{
    let (k0, k1, k2) = if is_turn_1 {
        (enters_tapped(card), produces_black(card), has_scry_etb(card))
    } else if claim_in_play {
        (has_scry_etb(card), enters_untapped(card), produces_black(card))
    } else {
        (produces_black(card), enters_untapped(card), has_scry_etb(card))
    };
    (if k0 {
        0
    } else {
        4
    }) + (if k1 {
        0
    } else {
        2
    }) + (if k2 {
        0
    } else {
        1
    })
}

/// Picks the best-ranked land in hand (ties broken by hand order) and takes
/// the first card bearing that land's primary name out of the hand, swapping
/// the hand's last card into its place. A hand without a playable, named land
/// is left untouched.
pub fn select_land_to_play(player: &mut PlayerState, is_turn_1: bool, claim_in_play: bool) -> (r:
    Option<OwnedCard>)
    ensures
        final(player).id == old(player).id,
        final(player).life_total == old(player).life_total,
        final(player).zones.library == old(player).zones.library,
        final(player).zones.graveyard == old(player).zones.graveyard,
        final(player).zones.exile == old(player).zones.exile,
        match best_land(
            old(player).zones.hand@,
            is_turn_1,
            claim_in_play,
            old(player).zones.hand@.len() as int,
        ) {
            None => r is None && final(player).zones.hand == old(player).zones.hand,
            Some((bi, rk)) => match old(player).zones.hand@[bi].card.spec_primary_name() {
                None => r is None && final(player).zones.hand == old(player).zones.hand,
                Some(name) => {
                    let found = crate::cast_spell::first_name_index(
                        old(player).zones.hand@,
                        name,
                        old(player).zones.hand@.len() as int,
                    );
                    found is Some && 0 <= found.unwrap() < old(player).zones.hand@.len() && r
                        == Some(old(player).zones.hand@[found.unwrap()])
                        && final(player).zones.hand@ == old(player).zones.hand@.update(
                        found.unwrap(),
                        old(player).zones.hand@.last(),
                    ).drop_last()
                },
            },
        },
{
    let ghost hand0 = player.zones.hand@;
    let n = player.zones.hand.len();
    let mut best: Option<(usize, u8)> = None;
    let mut i: usize = 0;
    while i < n
        invariant
            0 <= i <= n,
            *player == *old(player),
            hand0 == player.zones.hand@,
            n == hand0.len(),
            match best {
                None => best_land(hand0, is_turn_1, claim_in_play, i as int) is None,
                Some((bi, rk)) => bi < n && best_land(hand0, is_turn_1, claim_in_play, i as int)
                    == Some((bi as int, rk as int)),
            },
        decreases n - i,
    {
        if player.zones.hand[i].card.is_land() {
            let rk = rank_of(&player.zones.hand[i], is_turn_1, claim_in_play);
            best = match best {
                None => Some((i, rk)),
                Some((bj, rj)) => if rk < rj {
                    Some((i, rk))
                } else {
                    Some((bj, rj))
                },
            };
        }
        i = i + 1;
    }
    let (bi, rk) = match best {
        None => {
            return None;
        },
        Some(b) => b,
    };
    let name: String = match &player.zones.hand[bi].card {
        Card::Single(face) => face.name.clone(),
        Card::Adventure { primary, .. } => primary.name.clone(),
        Card::Omen { primary, .. } => primary.name.clone(),
        Card::Split(_, _) => {
            return None;
        },
    };
    proof {
        assert(hand0[bi as int].card.spec_primary_name() == Some(name@));
    }
    let mut j: usize = 0;
    while j < n
        invariant
            0 <= j <= n,
            *player == *old(player),
            hand0 == player.zones.hand@,
            n == hand0.len(),
            name@ == hand0[bi as int].card.spec_primary_name().unwrap(),
            bi < n,
            hand0[bi as int].card.spec_primary_name() is Some,
            best_land(hand0, is_turn_1, claim_in_play, n as int) == Some((bi as int, rk as int)),
            crate::cast_spell::first_name_index(hand0, name@, j as int) is None,
        decreases n - j,
    {
        if crate::cast_spell::card_has_primary_name(&player.zones.hand[j].card, &name) {
            proof {
                assert(crate::cast_spell::first_name_index(hand0, name@, j as int + 1) == Some(
                    j as int,
                ));
                crate::cast_spell::lemma_first_name_index_stable(
                    hand0,
                    name@,
                    j as int + 1,
                    hand0.len() as int,
                );
            }
            let card = player.zones.hand.swap_remove(j);
            return Some(card);
        }
        j = j + 1;
    }
    proof {
        crate::cast_spell::lemma_first_name_index_finds(hand0, name@, bi as int, n as int);
        assert(false);
    }
    None
}

/// The best land itself bears the name we search for, so the search cannot
/// come back empty.
proof fn lemma_best_land_has_name(
    hand: Seq<OwnedCard>,
    is_turn_1: bool,
    claim_in_play: bool,
    upto: int,
)
    requires
        best_land(hand, is_turn_1, claim_in_play, upto) is Some,
        upto <= hand.len(),
    ensures
        ({
            let (bi, rk) = best_land(hand, is_turn_1, claim_in_play, upto).unwrap();
            0 <= bi < upto && hand[bi].card.spec_is_land()
        }),
    decreases upto,
{
    if upto > 0 {
        if best_land(hand, is_turn_1, claim_in_play, upto - 1) is Some {
            lemma_best_land_has_name(hand, is_turn_1, claim_in_play, upto - 1);
        }
    }
}

} // verus!

verus! {

/// Where a scried or surveilled card goes: lands stay on top until the key
/// enchantment is in play; expensive spells stay on top once it is; the key
/// enchantment itself always stays on top; everything else is bottomed only
/// when one of those rules says so.
pub open spec fn spec_decide_to_bottom(claim_in_play: bool, c: Card) -> bool {
    let is_land = c.spec_is_land();
    let is_big_spell = !is_land && c.spec_mana_value() > 5;
    let is_claim = !is_land && !is_big_spell && c.spec_primary_name() == Some(
        "Duskmourn's Claim"@,
    );
    !((is_land && !claim_in_play) || (is_big_spell && claim_in_play) || is_claim)
}

pub fn decide_to_bottom(claim_in_play: bool, card: &Card) -> (r: bool)
    requires
        card.wf(),
    ensures
        r == spec_decide_to_bottom(claim_in_play, *card),
{
    let is_land = card.is_land();
    let is_big_spell = !is_land && (card.mana_value() > 5);
    let name = claim_name();
    let is_claim = !is_land && !is_big_spell && crate::cast_spell::card_has_primary_name(
        card,
        &name,
    );
    let should_top = (is_land && !claim_in_play) || (is_big_spell && claim_in_play) || is_claim;
    !should_top
}

/// Whether some object on the battlefield is a land.
pub open spec fn spec_land_in_play(objects: Seq<crate::battlefield::InPlayObject>) -> bool {
    exists|i: int| 0 <= i < objects.len() && (#[trigger] objects[i]).card.card.spec_is_land()
}

/// Whether some object on the battlefield bears the given primary name.
pub open spec fn spec_name_in_play(
    objects: Seq<crate::battlefield::InPlayObject>,
    name: Seq<char>,
) -> bool {
    exists|i: int|
        0 <= i < objects.len() && (#[trigger] objects[i]).card.card.spec_primary_name() == Some(
            name,
        )
}

/// No land was dropped: the whole battlefield reads as before.
pub open spec fn land_drop_skipped(pre: Battlefield, post: Battlefield) -> bool {
    &&& post.players@ == pre.players@
    &&& post.objects == pre.objects
    &&& post.log == pre.log
}

/// Where the library's top card went when a scry or surveil resolved: kept on
/// top when the placement policy says to top it, else to the library's bottom
/// (scry) or the graveyard (surveil); an empty library resolves to nothing.
pub open spec fn scry_resolution(
    pre0: PlayerState,
    post0: PlayerState,
    claim_in_play: bool,
    surveil: bool,
) -> bool {
    if pre0.zones.library@.len() == 0 {
        post0.zones.library@ == pre0.zones.library@ && post0.zones.graveyard
            == pre0.zones.graveyard
    } else {
        let top = pre0.zones.library@[0];
        if spec_decide_to_bottom(claim_in_play, top.card) {
            if surveil {
                post0.zones.library@ == pre0.zones.library@.drop_first() && post0.zones.graveyard@
                    == pre0.zones.graveyard@.push(top)
            } else {
                post0.zones.library@ == pre0.zones.library@.drop_first().push(top)
                    && post0.zones.graveyard == pre0.zones.graveyard
            }
        } else {
            post0.zones.library@ == pre0.zones.library@ && post0.zones.graveyard
                == pre0.zones.graveyard
        }
    }
}

/// How many log entries the land drop appends: the entered-play entry, plus
/// one placement entry when a scry or surveil trigger found a card to look at.
pub open spec fn land_drop_log_len(pre0: PlayerState, c: OwnedCard) -> int {
    match spec_land_etb(c.card) {
        Some(EntersAbility::Scry { .. }) | Some(EntersAbility::Surveil { .. }) => if
        pre0.zones.library@.len() == 0 {
            1int
        } else {
            2int
        },
        _ => 1int,
    }
}

/// The selected land `c`, found at hand position `fi`, was dropped: it left
/// the hand (the hand's last card swapped into its place), entered play
/// untapped or tapped as its own triggers say, and its scry or surveil
/// trigger, if any, placed the library's old top card.
pub open spec fn land_drop_done(
    pre: Battlefield,
    post: Battlefield,
    fi: int,
    c: OwnedCard,
    claim_in_play: bool,
) -> bool {
    &&& post.p0().zones.hand@ == pre.p0().zones.hand@.update(
        fi,
        pre.p0().zones.hand@.last(),
    ).drop_last()
    &&& post.objects@.len() == pre.objects@.len() + 1
    &&& (forall|i: int| 0 <= i < pre.objects@.len() ==> post.objects@[i] == pre.objects@[i])
    &&& post.objects@[pre.objects@.len() as int].card == c
    &&& post.objects@[pre.objects@.len() as int].tapped == c.card.spec_enters_tapped()
    &&& post.objects@[pre.objects@.len() as int].controller == c.owner
    &&& post.objects@[pre.objects@.len() as int].is_token == false
    &&& post.objects@[pre.objects@.len() as int].counters@.len() == 0
    &&& post.log@.len() == pre.log@.len() + land_drop_log_len(pre.p0(), c)
    &&& (post.log@[pre.log@.len() as int] matches Event::EnteredPlay(_))
    &&& match spec_land_etb(c.card) {
        Some(EntersAbility::Scry { .. }) => scry_resolution(
            pre.p0(),
            post.p0(),
            claim_in_play,
            false,
        ),
        Some(EntersAbility::Surveil { .. }) => scry_resolution(
            pre.p0(),
            post.p0(),
            claim_in_play,
            true,
        ),
        _ => post.p0().zones.library@ == pre.p0().zones.library@ && post.p0().zones.graveyard
            == pre.p0().zones.graveyard,
    }
}

/// Resolves the turn's one land drop: ranks the lands in hand, puts the best
/// one into play, and resolves its scry or surveil trigger, if any, against
/// the top of the library. A hand without a playable, named land changes
/// nothing.
pub fn play_a_land(battlefield: &mut Battlefield)
    requires
        old(battlefield).wf(),
    ensures
        final(battlefield).wf(),
        final(battlefield).players@.len() == 2,
        final(battlefield).p0().id == old(battlefield).p0().id,
        final(battlefield).p0().life_total == old(battlefield).p0().life_total,
        final(battlefield).p0().zones.exile == old(battlefield).p0().zones.exile,
        final(battlefield).p1() == old(battlefield).p1(),
        final(battlefield).p0().zones.library@.len() <= old(battlefield).p0().zones.library@.len(),
        final(battlefield).p0().zones.hand@.len() + final(battlefield).p0().zones.library@.len()
            <= old(battlefield).p0().zones.hand@.len() + old(
            battlefield,
        ).p0().zones.library@.len(),
        final(battlefield).objects@.len() >= old(battlefield).objects@.len(),
        forall|i: int|
            0 <= i < old(battlefield).objects@.len() ==> #[trigger] final(battlefield).objects@[i]
                == old(battlefield).objects@[i],
        old(battlefield).log@.is_prefix_of(final(battlefield).log@),
        crate::battlefield::p0_card_count(*final(battlefield)) == crate::battlefield::p0_card_count(
            *old(battlefield),
        ),
        crate::battlefield::p1_card_count(*final(battlefield)) == crate::battlefield::p1_card_count(
            *old(battlefield),
        ),
        ({
            let hand0 = old(battlefield).p0().zones.hand@;
            let turn_1 = !spec_land_in_play(old(battlefield).objects@);
            let claim = spec_name_in_play(old(battlefield).objects@, "Duskmourn's Claim"@);
            match best_land(hand0, turn_1, claim, hand0.len() as int) {
                None => land_drop_skipped(*old(battlefield), *final(battlefield)),
                Some((bi, rk)) => match hand0[bi].card.spec_primary_name() {
                    None => land_drop_skipped(*old(battlefield), *final(battlefield)),
                    Some(name) => land_drop_done(
                        *old(battlefield),
                        *final(battlefield),
                        crate::cast_spell::first_name_index(
                            hand0,
                            name,
                            hand0.len() as int,
                        ).unwrap(),
                        hand0[crate::cast_spell::first_name_index(
                            hand0,
                            name,
                            hand0.len() as int,
                        ).unwrap()],
                        claim,
                    ),
                },
            }
        }),
{
    proof {
        crate::battlefield::lemma_prefix_refl(old(battlefield).log@);
    }
    // On turn one there are no other lands in play yet.
    let mut is_turn_1 = true;
    let n_objects = battlefield.objects.len();
    let mut i: usize = 0;
    while i < n_objects
        invariant
            0 <= i <= n_objects,
            *battlefield == *old(battlefield),
            n_objects == battlefield.objects@.len(),
            is_turn_1 <==> !(exists|j: int|
                0 <= j < i && (#[trigger] battlefield.objects@[j]).card.card.spec_is_land()),
        decreases n_objects - i,
    {
        if battlefield.objects[i].card.card.is_land() {
            is_turn_1 = false;
        }
        i = i + 1;
    }
    let name = claim_name();
    let mut claim_in_play = false;
    let mut i: usize = 0;
    while i < n_objects
        invariant
            0 <= i <= n_objects,
            *battlefield == *old(battlefield),
            n_objects == battlefield.objects@.len(),
            name@ == "Duskmourn's Claim"@,
            claim_in_play <==> exists|j: int|
                0 <= j < i && (#[trigger] battlefield.objects@[j]).card.card.spec_primary_name()
                    == Some(name@),
        decreases n_objects - i,
    {
        if crate::cast_spell::card_has_primary_name(&battlefield.objects[i].card.card, &name) {
            claim_in_play = true;
        }
        i = i + 1;
    }

    let picked = select_land_to_play(&mut battlefield.players[0], is_turn_1, claim_in_play);
    let card_to_play = match picked {
        Some(card) => card,
        None => {
            proof {
                assert(battlefield.players@ =~= old(battlefield).players@);
            }
            return;
        },
    };
    proof {
        let hand0 = old(battlefield).p0().zones.hand@;
        let found = crate::cast_spell::first_name_index(
            hand0,
            hand0[best_land(hand0, is_turn_1, claim_in_play, hand0.len() as int).unwrap().0].card
                .spec_primary_name().unwrap(),
            hand0.len() as int,
        );
        assert(hand0[found.unwrap()].wf());
        assert forall|x: int|
            0 <= x < battlefield.p0().zones.hand@.len() implies (#[trigger] battlefield.p0().zones
            .hand@[x]).wf() by {
            assert(battlefield.p0().zones.hand@[x] == hand0.update(
                found.unwrap(),
                hand0.last(),
            ).drop_last()[x]);
            assert(hand0[hand0.len() - 1].wf());
            assert(hand0[x].wf());
        }
    }
    let ghost dropped = card_to_play;
    let etb = battlefield.play_land(card_to_play);
    let ghost log_mid = battlefield.log@;
    let ghost lib0 = old(battlefield).p0().zones.library@;
    proof {
        crate::battlefield::lemma_prefix_refl(battlefield.log@);
        assert(battlefield.p0().zones.library@ == lib0);
        assert(log_mid[old(battlefield).log@.len() as int] == log_mid.last());
    }
    match etb {
        Some(EntersAbility::Scry { amount: _ }) => {
            let popped = battlefield.players[0].zones.library.pop_front();
            match popped {
                Some(c) => {
                    assert(c.wf());
                    proof {
                        assert(lib0.len() > 0 && c == lib0[0]);
                    }
                    if decide_to_bottom(claim_in_play, &c.card) {
                        battlefield.log.push(Event::ScryBottom(c.clone()));
                        battlefield.players[0].zones.library.push_back(c);
                        proof {
                            assert(battlefield.p0().zones.library@ =~= lib0.drop_first().push(
                                lib0[0],
                            ));
                        }
                    } else {
                        battlefield.log.push(Event::ScryTop(c.clone()));
                        battlefield.players[0].zones.library.push_front(c);
                        proof {
                            assert(battlefield.p0().zones.library@ =~= lib0);
                        }
                    }
                    proof {
                        crate::battlefield::lemma_prefix_push(log_mid, battlefield.log@.last());
                        crate::battlefield::lemma_prefix_trans(
                            old(battlefield).log@,
                            log_mid,
                            battlefield.log@,
                        );
                        assert(battlefield.log@[old(battlefield).log@.len() as int] == log_mid[old(
                            battlefield,
                        ).log@.len() as int]);
                    }
                },
                None => (),
            }
        },
        Some(EntersAbility::Surveil { amount: _ }) => {
            let popped = battlefield.players[0].zones.library.pop_front();
            match popped {
                Some(c) => {
                    assert(c.wf());
                    proof {
                        assert(lib0.len() > 0 && c == lib0[0]);
                    }
                    if decide_to_bottom(claim_in_play, &c.card) {
                        battlefield.log.push(Event::SurveilYard(c.clone()));
                        battlefield.players[0].zones.graveyard.push(c);
                        proof {
                            assert(battlefield.p0().zones.library@ =~= lib0.drop_first());
                        }
                    } else {
                        battlefield.log.push(Event::SurveilTop(c.clone()));
                        battlefield.players[0].zones.library.push_front(c);
                        proof {
                            assert(battlefield.p0().zones.library@ =~= lib0);
                        }
                    }
                    proof {
                        crate::battlefield::lemma_prefix_push(log_mid, battlefield.log@.last());
                        crate::battlefield::lemma_prefix_trans(
                            old(battlefield).log@,
                            log_mid,
                            battlefield.log@,
                        );
                        assert(battlefield.log@[old(battlefield).log@.len() as int] == log_mid[old(
                            battlefield,
                        ).log@.len() as int]);
                    }
                },
                None => (),
            }
        },
        _ => (),
    }
}

} // verus!
