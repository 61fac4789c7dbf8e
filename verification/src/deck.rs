//! The fixed deck the simulation plays: a static catalog of sixty cards.
//!
//! The catalog is data, not logic: its contract states only what the engine
//! relies on -- the deck holds exactly sixty well formed cards. What each card
//! does is exercised by the tests and by running the simulation.

use vstd::prelude::*;
use crate::abilities::{
    Ability, AbilityCost, EndStepAbility, Effect, EntersAbility, ManaAbility, ManaProduction,
};
use crate::card::{Card, CardFace};
use crate::cast_spell::{generic_plus, one_pip, two_pips};
use crate::color::Color;
use crate::mana_cost::{pips_value, ManaCost, Pip, Unit};
use crate::types::{
    CreatureProperties, CreatureSubtypes, EnchantmentProperties, EnchantmentSubtypes,
    LandProperties, LandSubtypes, Power, Toughness, Type,
};

verus! {

/// Assembles a face, concentrating the well-formedness obligations.
fn face(
    name: &str,
    mana_cost: Option<ManaCost>,
    color: Color,
    type_line: Type,
    abilities: Vec<Ability>,
) -> (r: CardFace)
    requires
        match mana_cost {
            Some(c) => c.wf(),
            None => true,
        },
        forall|i: int| 0 <= i < abilities@.len() ==> (#[trigger] abilities@[i]).wf(),
    ensures
        r.wf(),
        r.name@ == name@,
        r.type_line == type_line,
        r.spec_mana_value() == match mana_cost {
            Some(c) => pips_value(c.pips@),
            None => 0int,
        },
{
    CardFace { name: name.to_owned(), mana_cost, color, is_legendary: false, type_line, abilities }
}

fn no_abilities() -> (r: Vec<Ability>)
    ensures
        r@.len() == 0,
        forall|i: int| 0 <= i < r@.len() ==> (#[trigger] r@[i]).wf(),
{
    Vec::new()
}

fn abilities1(a: Ability) -> (r: Vec<Ability>)
    requires
        a.wf(),
    ensures
        forall|i: int| 0 <= i < r@.len() ==> (#[trigger] r@[i]).wf(),
{
    let mut r: Vec<Ability> = Vec::new();
    r.push(a);
    r
}

fn abilities2(a: Ability, b: Ability) -> (r: Vec<Ability>)
    requires
        a.wf(),
        b.wf(),
    ensures
        forall|i: int| 0 <= i < r@.len() ==> (#[trigger] r@[i]).wf(),
{
    let mut r: Vec<Ability> = Vec::new();
    r.push(a);
    r.push(b);
    r
}

fn abilities3(a: Ability, b: Ability, c: Ability) -> (r: Vec<Ability>)
    requires
        a.wf(),
        b.wf(),
        c.wf(),
    ensures
        forall|i: int| 0 <= i < r@.len() ==> (#[trigger] r@[i]).wf(),
{
    let mut r: Vec<Ability> = Vec::new();
    r.push(a);
    r.push(b);
    r.push(c);
    r
}

/// A mana ability paid by tapping alone.
fn tap_for(produce: ManaProduction) -> (r: Ability)
    ensures
        r.wf(),
{
    Ability::Mana(ManaAbility { cost: AbilityCost { tap: true, mana_cost: None }, produce })
}

/// A mana ability paid by tapping and one generic mana.
fn tap_and_one_for(produce: ManaProduction) -> (r: Ability)
    ensures
        r.wf(),
{
    let pips = one_pip(Pip::Single(Unit::Generic { amount: 1 }));
    Ability::Mana(
        ManaAbility {
            cost: AbilityCost { tap: true, mana_cost: Some(ManaCost { pips }) },
            produce,
        },
    )
}

fn cost(n: u8, colored: Vec<Pip>) -> (r: ManaCost)
    requires
        pips_value(colored@) + n as int <= u8::MAX,
    ensures
        r.wf(),
        pips_value(r.pips@) == n as int + pips_value(colored@),
{
    ManaCost { pips: generic_plus(n, colored) }
}

fn cease_desist() -> (r: Card)
    ensures
        r.wf(),
{
    let cease = face(
        "Cease",
        Some(cost(1, one_pip(Pip::Hybrid(Unit::Black, Unit::Green)))),
        Color::golgari(),
        Type::Instant,
        abilities1(Ability::Other(Effect::GainTwoAndDraw)),
    );
    let desist = face(
        "Desist",
        Some(
            cost(
                4,
                two_pips(
                    Pip::Hybrid(Unit::Green, Unit::White),
                    Pip::Hybrid(Unit::Green, Unit::White),
                ),
            ),
        ),
        Color::selesnya(),
        Type::Sorcery,
        no_abilities(),
    );
    Card::Split(cease, desist)
}

fn stormbrood() -> (r: Card)
    ensures
        r.wf(),
{
    let twinmaw = face(
        "Twinmaw Stormbrood",
        Some(cost(5, one_pip(Pip::Single(Unit::White)))),
        Color::white(),
        Type::Creature(
            CreatureProperties {
                subtypes: {
                    let mut s: Vec<CreatureSubtypes> = Vec::new();
                    s.push(CreatureSubtypes::Dragon);
                    s
                },
                power: Power::Value(5),
                toughness: Toughness::Value(4),
            },
        ),
        abilities2(
            Ability::Flying,
            Ability::Enters(EntersAbility::GainLife { amount: 5 }),
        ),
    );
    let charring_bite = face(
        "Charring Bite",
        Some(cost(1, one_pip(Pip::Single(Unit::Red)))),
        Color::red(),
        Type::Sorcery,
        no_abilities(),
    );
    Card::Omen { primary: twinmaw, omen: charring_bite }
}

fn room_subtypes() -> (r: Vec<EnchantmentSubtypes>)
    ensures
        true,
{
    let mut s: Vec<EnchantmentSubtypes> = Vec::new();
    s.push(EnchantmentSubtypes::Room);
    s
}

fn furnace_sauna() -> (r: Card)
    ensures
        r.wf(),
{
    let roaring_furnace = face(
        "Roaring Furnace",
        Some(cost(1, one_pip(Pip::Single(Unit::Red)))),
        Color::red(),
        Type::Enchantment(EnchantmentProperties { subtypes: room_subtypes() }),
        no_abilities(),
    );
    let steaming_sauna = face(
        "Steaming Sauna",
        Some(cost(3, two_pips(Pip::Single(Unit::Blue), Pip::Single(Unit::Blue)))),
        Color::blue(),
        Type::Enchantment(EnchantmentProperties { subtypes: room_subtypes() }),
        abilities1(Ability::EndStep(EndStepAbility::Other(Effect::DrawOne))),
    );
    Card::Split(roaring_furnace, steaming_sauna)
}

fn virtue() -> (r: Card)
    ensures
        r.wf(),
{
    let virtue_of_persistence = face(
        "Virtue of Persistence",
        Some(cost(5, two_pips(Pip::Single(Unit::Black), Pip::Single(Unit::Black)))),
        Color::black(),
        Type::Enchantment(EnchantmentProperties { subtypes: Vec::new() }),
        no_abilities(),
    );
    let locthwain_scorn = face(
        "Locthwain Scorn",
        Some(cost(1, one_pip(Pip::Single(Unit::Black)))),
        Color::black(),
        Type::Sorcery,
        no_abilities(),
    );
    Card::Adventure { primary: virtue_of_persistence, adventure: locthwain_scorn }
}

fn carnosaur() -> (r: Card)
    ensures
        r.wf(),
{
    Card::Single(
        face(
            "Trumpeting Carnosaur",
            Some(cost(4, two_pips(Pip::Single(Unit::Red), Pip::Single(Unit::Red)))),
            Color::red(),
            Type::Creature(
                CreatureProperties {
                    subtypes: {
                        let mut s: Vec<CreatureSubtypes> = Vec::new();
                        s.push(CreatureSubtypes::Dinosaur);
                        s
                    },
                    power: Power::Value(7),
                    toughness: Toughness::Value(6),
                },
            ),
            abilities2(
                Ability::Trample,
                Ability::Enters(EntersAbility::Discover { amount: 5 }),
            ),
        ),
    )
}

fn works_yard() -> (r: Card)
    ensures
        r.wf(),
{
    let glassworks = face(
        "Glassworks",
        Some(cost(2, one_pip(Pip::Single(Unit::Red)))),
        Color::red(),
        Type::Enchantment(EnchantmentProperties { subtypes: room_subtypes() }),
        no_abilities(),
    );
    let shattered_yard = face(
        "Shattered Yard",
        Some(cost(4, one_pip(Pip::Single(Unit::Red)))),
        Color::red(),
        Type::Enchantment(EnchantmentProperties { subtypes: room_subtypes() }),
        abilities1(Ability::EndStep(EndStepAbility::Other(Effect::OpponentsLoseOne))),
    );
    Card::Split(glassworks, shattered_yard)
}

fn appraiser() -> (r: Card)
    ensures
        r.wf(),
{
    Card::Single(
        face(
            "Geological Appraiser",
            Some(cost(2, two_pips(Pip::Single(Unit::Red), Pip::Single(Unit::Red)))),
            Color::red(),
            Type::Creature(
                CreatureProperties {
                    subtypes: {
                        let mut s: Vec<CreatureSubtypes> = Vec::new();
                        s.push(CreatureSubtypes::Human);
                        s.push(CreatureSubtypes::Artificer);
                        s
                    },
                    power: Power::Value(3),
                    toughness: Toughness::Value(2),
                },
            ),
            abilities1(Ability::Enters(EntersAbility::Discover { amount: 3 })),
        ),
    )
}

fn annex_chamber() -> (r: Card)
    ensures
        r.wf(),
{
    let unholy_annex = face(
        "Unholy Annex",
        Some(cost(2, one_pip(Pip::Single(Unit::Black)))),
        Color::black(),
        Type::Enchantment(EnchantmentProperties { subtypes: room_subtypes() }),
        no_abilities(),
    );
    let ritual_chamber = face(
        "Ritual Chamber",
        Some(cost(3, two_pips(Pip::Single(Unit::Black), Pip::Single(Unit::Black)))),
        Color::black(),
        Type::Enchantment(EnchantmentProperties { subtypes: room_subtypes() }),
        no_abilities(),
    );
    Card::Split(unholy_annex, ritual_chamber)
}

fn duskmourns_claim() -> (r: Card)
    ensures
        r.wf(),
{
    Card::Single(
        face(
            "Duskmourn's Claim",
            Some(cost(2, one_pip(Pip::Single(Unit::Black)))),
            Color::black(),
            Type::Enchantment(EnchantmentProperties { subtypes: Vec::new() }),
            abilities1(Ability::EndStep(EndStepAbility::Other(Effect::MillForLife))),
        ),
    )
}

/// The basic mountain; also the passive opponent's whole deck.
pub(crate) fn mountain() -> (r: Card)
    ensures
        r.wf(),
        r.spec_primary_name() == Some("Mountain"@),
        r.spec_is_land(),
{
    Card::Single(
        face(
            "Mountain",
            None,
            Color::colorless(),
            Type::Land(
                LandProperties {
                    is_basic: true,
                    subtypes: {
                        let mut s: Vec<LandSubtypes> = Vec::new();
                        s.push(LandSubtypes::Mountain);
                        s
                    },
                },
            ),
            abilities1(tap_for(ManaProduction::red())),
        ),
    )
}

fn swamp() -> (r: Card)
    ensures
        r.wf(),
{
    Card::Single(
        face(
            "Swamp",
            None,
            Color::colorless(),
            Type::Land(
                LandProperties {
                    is_basic: true,
                    subtypes: {
                        let mut s: Vec<LandSubtypes> = Vec::new();
                        s.push(LandSubtypes::Swamp);
                        s
                    },
                },
            ),
            abilities1(tap_for(ManaProduction::black())),
        ),
    )
}

fn conduit_pylons() -> (r: Card)
    ensures
        r.wf(),
{
    Card::Single(
        face(
            "Conduit Pylons",
            None,
            Color::colorless(),
            Type::Land(
                LandProperties {
                    is_basic: false,
                    subtypes: {
                        let mut s: Vec<LandSubtypes> = Vec::new();
                        s.push(LandSubtypes::Desert);
                        s
                    },
                },
            ),
            abilities3(
                Ability::Enters(EntersAbility::Surveil { amount: 1 }),
                tap_for(ManaProduction::colorless()),
                tap_and_one_for(ManaProduction::any_color()),
            ),
        ),
    )
}

fn crystal_grotto() -> (r: Card)
    ensures
        r.wf(),
{
    Card::Single(
        face(
            "Crystal Grotto",
            None,
            Color::colorless(),
            Type::Land(LandProperties { is_basic: false, subtypes: Vec::new() }),
            abilities3(
                Ability::Enters(EntersAbility::Scry { amount: 1 }),
                tap_for(ManaProduction::colorless()),
                tap_and_one_for(ManaProduction::any_color()),
            ),
        ),
    )
}

fn hidden_grotto() -> (r: Card)
    ensures
        r.wf(),
{
    Card::Single(
        face(
            "Hidden Grotto",
            None,
            Color::colorless(),
            Type::Land(LandProperties { is_basic: false, subtypes: Vec::new() }),
            abilities3(
                Ability::Enters(EntersAbility::Surveil { amount: 1 }),
                tap_for(ManaProduction::colorless()),
                tap_and_one_for(ManaProduction::any_color()),
            ),
        ),
    )
}

fn temple_of_malice() -> (r: Card)
    ensures
        r.wf(),
{
    Card::Single(
        face(
            "Temple of Malice",
            None,
            Color::colorless(),
            Type::Land(LandProperties { is_basic: false, subtypes: Vec::new() }),
            abilities3(
                Ability::Enters(EntersAbility::Tapped),
                Ability::Enters(EntersAbility::Scry { amount: 1 }),
                tap_for(ManaProduction::rakdos()),
            ),
        ),
    )
}

fn raucous_theater() -> (r: Card)
    ensures
        r.wf(),
{
    Card::Single(
        face(
            "Raucous Theater",
            None,
            Color::colorless(),
            Type::Land(
                LandProperties {
                    is_basic: false,
                    subtypes: {
                        let mut s: Vec<LandSubtypes> = Vec::new();
                        s.push(LandSubtypes::Mountain);
                        s.push(LandSubtypes::Swamp);
                        s
                    },
                },
            ),
            abilities3(
                Ability::Enters(EntersAbility::Tapped),
                Ability::Enters(EntersAbility::Surveil { amount: 1 }),
                tap_for(ManaProduction::rakdos()),
            ),
        ),
    )
}

fn blazemire_verge() -> (r: Card)
    ensures
        r.wf(),
{
    Card::Single(
        face(
            "Blazemire Verge",
            None,
            Color::colorless(),
            Type::Land(LandProperties { is_basic: false, subtypes: Vec::new() }),
            abilities2(tap_for(ManaProduction::black()), tap_for(ManaProduction::red())),
        ),
    )
}

/// The deck list: sixty cards, four copies of each playset and the listed
/// count of every land.
pub fn deck() -> (r: Vec<Card>)
    ensures
        r@.len() == 60,
        forall|i: int| 0 <= i < r@.len() ==> (#[trigger] r@[i]).wf(),
{
    let mut deck: Vec<Card> = Vec::new();
    let mut k: usize = 0;
    while k < 4
        invariant
            deck@.len() == k,
            k <= 4,
            forall|i: int| 0 <= i < deck@.len() ==> (#[trigger] deck@[i]).wf(),
        decreases 4 - k,
    {
        deck.push(cease_desist());
        k = k + 1;
    }
    let mut k: usize = 0;
    while k < 4
        invariant
            deck@.len() == 4 + k,
            k <= 4,
            forall|i: int| 0 <= i < deck@.len() ==> (#[trigger] deck@[i]).wf(),
        decreases 4 - k,
    {
        deck.push(stormbrood());
        k = k + 1;
    }
    let mut k: usize = 0;
    while k < 4
        invariant
            deck@.len() == 8 + k,
            k <= 4,
            forall|i: int| 0 <= i < deck@.len() ==> (#[trigger] deck@[i]).wf(),
        decreases 4 - k,
    {
        deck.push(furnace_sauna());
        k = k + 1;
    }
    let mut k: usize = 0;
    while k < 4
        invariant
            deck@.len() == 12 + k,
            k <= 4,
            forall|i: int| 0 <= i < deck@.len() ==> (#[trigger] deck@[i]).wf(),
        decreases 4 - k,
    {
        deck.push(virtue());
        k = k + 1;
    }
    let mut k: usize = 0;
    while k < 4
        invariant
            deck@.len() == 16 + k,
            k <= 4,
            forall|i: int| 0 <= i < deck@.len() ==> (#[trigger] deck@[i]).wf(),
        decreases 4 - k,
    {
        deck.push(carnosaur());
        k = k + 1;
    }
    let mut k: usize = 0;
    while k < 4
        invariant
            deck@.len() == 20 + k,
            k <= 4,
            forall|i: int| 0 <= i < deck@.len() ==> (#[trigger] deck@[i]).wf(),
        decreases 4 - k,
    {
        deck.push(works_yard());
        k = k + 1;
    }
    let mut k: usize = 0;
    while k < 4
        invariant
            deck@.len() == 24 + k,
            k <= 4,
            forall|i: int| 0 <= i < deck@.len() ==> (#[trigger] deck@[i]).wf(),
        decreases 4 - k,
    {
        deck.push(appraiser());
        k = k + 1;
    }
    let mut k: usize = 0;
    while k < 2
        invariant
            deck@.len() == 28 + k,
            k <= 2,
            forall|i: int| 0 <= i < deck@.len() ==> (#[trigger] deck@[i]).wf(),
        decreases 2 - k,
    {
        deck.push(annex_chamber());
        k = k + 1;
    }
    let mut k: usize = 0;
    while k < 4
        invariant
            deck@.len() == 30 + k,
            k <= 4,
            forall|i: int| 0 <= i < deck@.len() ==> (#[trigger] deck@[i]).wf(),
        decreases 4 - k,
    {
        deck.push(duskmourns_claim());
        k = k + 1;
    }
    let mut k: usize = 0;
    while k < 3
        invariant
            deck@.len() == 34 + k,
            k <= 3,
            forall|i: int| 0 <= i < deck@.len() ==> (#[trigger] deck@[i]).wf(),
        decreases 3 - k,
    {
        deck.push(mountain());
        k = k + 1;
    }
    deck.push(swamp());
    let mut k: usize = 0;
    while k < 4
        invariant
            deck@.len() == 38 + k,
            k <= 4,
            forall|i: int| 0 <= i < deck@.len() ==> (#[trigger] deck@[i]).wf(),
        decreases 4 - k,
    {
        deck.push(conduit_pylons());
        k = k + 1;
    }
    let mut k: usize = 0;
    while k < 3
        invariant
            deck@.len() == 42 + k,
            k <= 3,
            forall|i: int| 0 <= i < deck@.len() ==> (#[trigger] deck@[i]).wf(),
        decreases 3 - k,
    {
        deck.push(crystal_grotto());
        k = k + 1;
    }
    let mut k: usize = 0;
    while k < 4
        invariant
            deck@.len() == 45 + k,
            k <= 4,
            forall|i: int| 0 <= i < deck@.len() ==> (#[trigger] deck@[i]).wf(),
        decreases 4 - k,
    {
        deck.push(hidden_grotto());
        k = k + 1;
    }
    let mut k: usize = 0;
    while k < 4
        invariant
            deck@.len() == 49 + k,
            k <= 4,
            forall|i: int| 0 <= i < deck@.len() ==> (#[trigger] deck@[i]).wf(),
        decreases 4 - k,
    {
        deck.push(temple_of_malice());
        k = k + 1;
    }
    let mut k: usize = 0;
    while k < 4
        invariant
            deck@.len() == 53 + k,
            k <= 4,
            forall|i: int| 0 <= i < deck@.len() ==> (#[trigger] deck@[i]).wf(),
        decreases 4 - k,
    {
        deck.push(raucous_theater());
        k = k + 1;
    }
    let mut k: usize = 0;
    while k < 3
        invariant
            deck@.len() == 57 + k,
            k <= 3,
            forall|i: int| 0 <= i < deck@.len() ==> (#[trigger] deck@[i]).wf(),
        decreases 3 - k,
    {
        deck.push(blazemire_verge());
        k = k + 1;
    }
    deck
}

} // verus!
